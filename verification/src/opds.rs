//! OPDS (Atom) catalog feeds: the root navigation feed, acquisition feeds of
//! books, category feeds and the OpenSearch descriptor.

use vstd::prelude::*;
use crate::dates::{is_clock_reading, naive_to_rfc3339, now_rfc3339, utc_rfc3339};
use crate::db::models::{custom_value_text, Author, Book, BookFormat, BookMetadata, Category, CustomValue};
use crate::text::{
    push_signed_decimal, push_str, signed_decimal, str_eq, to_lowercase,
    unicode_lowercase,
};
use crate::xml::{
    attribute, element, lemma_escape_round_trip, lemma_escaped_is_plain, link, write_attribute,
    write_element, write_link, xml_declaration, xml_escaped, xml_unescaped,
};

verus! {

/// Media type of navigation feeds.
pub const NAVIGATION_TYPE: &'static str = "application/atom+xml;profile=opds-catalog;kind=navigation";

/// Media type of acquisition feeds.
pub const ACQUISITION_TYPE: &'static str = "application/atom+xml;profile=opds-catalog;kind=acquisition";

// ---------------------------------------------------------------------------
// Arithmetic of the pagination links
// ---------------------------------------------------------------------------

/// Absolute value.
pub open spec fn abs_int(a: int) -> nat {
    if a < 0 {
        (-a) as nat
    } else {
        a as nat
    }
}

/// Integer division rounding toward zero, as Rust's `/` on signed integers.
pub open spec fn trunc_div(a: int, b: int) -> int {
    let q = (abs_int(a) / abs_int(b)) as int;
    if (a >= 0 && b > 0) || (a < 0 && b < 0) {
        q
    } else {
        -q
    }
}

/// Number of pages: `(total + per_page - 1) / per_page`.
pub open spec fn total_pages(total: int, per_page: int) -> int {
    trunc_div(total + per_page - 1, per_page)
}

/// With a positive page size and a positive number of books, the pages
/// hold every book and no page is wholly empty.
pub proof fn lemma_pages_cover_total(total: int, per_page: int)
    requires
        per_page > 0,
        total > 0,
    ensures
        (total_pages(total, per_page) - 1) * per_page < total,
        total <= total_pages(total, per_page) * per_page,
{
    let n = total + per_page - 1;
    assert(n >= 0);
    let q = n / per_page;
    assert(total_pages(total, per_page) == q);
    assert((q - 1) * per_page < total && total <= q * per_page) by (nonlinear_arith)
        requires
            per_page > 0,
            n >= 0,
            n == total + per_page - 1,
            q == n / per_page,
    ;
}

fn magnitude(a: i64) -> (r: u64)
    ensures
        r == abs_int(a as int),
{
    if a == i64::MIN {
        9223372036854775808u64
    } else if a < 0 {
        (-a) as u64
    } else {
        a as u64
    }
}

/// `a / b` on `i64`, rounding toward zero.
pub fn div_toward_zero(a: i64, b: i64) -> (r: i64)
    requires
        b != 0,
        !(a == i64::MIN && b == -1),
    ensures
        r == trunc_div(a as int, b as int),
{
    let ua = magnitude(a);
    let ub = magnitude(b);
    let q: u64 = ua / ub;
    assert(q <= ua) by (nonlinear_arith)
        requires
            ub >= 1,
            q == ua / ub,
    ;
    if (a >= 0 && b > 0) || (a < 0 && b < 0) {
        assert(q < 9223372036854775808u64) by (nonlinear_arith)
            requires
                ub >= 1,
                q == ua / ub,
                ua <= 9223372036854775808u64,
                ua == 9223372036854775808u64 ==> ub >= 2,
        ;
        q as i64
    } else if q == 9223372036854775808u64 {
        i64::MIN
    } else {
        -(q as i64)
    }
}

// ---------------------------------------------------------------------------
// The shapes of the feeds
// ---------------------------------------------------------------------------

/// The views of a vector of strings.
pub open spec fn string_views(v: Seq<String>) -> Seq<Seq<char>> {
    v.map_values(|s: String| s@)
}

/// Opening `<feed>` tag with the Atom, Dublin Core and OPDS namespaces, and
/// the Calibre namespace on acquisition feeds.
pub open spec fn feed_open(calibre: bool) -> Seq<char> {
    "<feed"@ + attribute("xmlns"@, "http://www.w3.org/2005/Atom"@) + attribute(
        "xmlns:dcterms"@,
        "http://purl.org/dc/terms/"@,
    ) + attribute("xmlns:opds"@, "http://opds-spec.org/2010/catalog"@) + (if calibre {
        attribute("xmlns:calibre"@, "http://calibre-ebook.com"@)
    } else {
        Seq::empty()
    }) + ">"@
}

/// A navigation entry pointing at `base + path`.
pub open spec fn navigation_entry(
    base: Seq<char>,
    title: Seq<char>,
    path: Seq<char>,
    summary: Option<Seq<char>>,
    updated: Seq<char>,
) -> Seq<char> {
    "<entry>"@ + element("title"@, title) + element("id"@, base + path) + element(
        "updated"@,
        updated,
    ) + (match summary {
        Some(s) => element("summary"@, s),
        None => Seq::empty(),
    }) + link("subsection"@, base + path, NAVIGATION_TYPE@) + "</entry>"@
}

/// The root catalog: feed header, self and search links, then one
/// navigation entry per way of browsing. `stamps` are the `updated` times of
/// the feed and of its nine entries, in order.
pub open spec fn root_feed(base: Seq<char>, stamps: Seq<Seq<char>>) -> Seq<char> {
    xml_declaration() + feed_open(false) + element("id"@, base + "/"@) + element(
        "title"@,
        "Calibre Library"@,
    ) + element("updated"@, stamps[0]) + "<author>"@ + element("name"@, "Calibre OPDS Server"@)
        + "</author>"@ + link("self"@, base + "/"@, NAVIGATION_TYPE@) + link(
        "search"@,
        base + "/search.xml"@,
        "application/opensearchdescription+xml"@,
    ) + navigation_entry(
        base,
        "All Books"@,
        "/books"@,
        Some("Browse all books in the library"@),
        stamps[1],
    ) + navigation_entry(
        base,
        "Recently Added"@,
        "/recent"@,
        Some("100 most recently added books"@),
        stamps[2],
    ) + navigation_entry(
        base,
        "By Author"@,
        "/authors"@,
        Some("Browse books by author"@),
        stamps[3],
    ) + navigation_entry(
        base,
        "By Series"@,
        "/series"@,
        Some("Browse books by series"@),
        stamps[4],
    ) + navigation_entry(
        base,
        "By Tag"@,
        "/tags"@,
        Some("Browse books by tag/genre"@),
        stamps[5],
    ) + navigation_entry(
        base,
        "By Publisher"@,
        "/publishers"@,
        Some("Browse books by publisher"@),
        stamps[6],
    ) + navigation_entry(
        base,
        "By Language"@,
        "/languages"@,
        Some("Browse books by language"@),
        stamps[7],
    ) + navigation_entry(
        base,
        "By Rating"@,
        "/ratings"@,
        Some("Browse books by rating"@),
        stamps[8],
    ) + navigation_entry(
        base,
        "Read by Year"@,
        "/read-years"@,
        Some("Browse books read by year"@),
        stamps[9],
    ) + "</feed>"@
}

/// `base/books?page=P&per_page=N`.
pub open spec fn page_href(base: Seq<char>, page: int, per_page: int) -> Seq<char> {
    base + "/books?page="@ + signed_decimal(page) + "&per_page="@ + signed_decimal(per_page)
}

/// The identifier after `urn:uuid:`: the book's UUID, or its id.
pub open spec fn book_urn_id(b: Book) -> Seq<char> {
    match b.uuid {
        Some(u) => u@,
        None => signed_decimal(b.id as int),
    }
}

/// The `updated` time of an entry: the book's last modification, else `fallback`.
pub open spec fn entry_updated(b: Book, fallback: Seq<char>) -> Seq<char> {
    match b.last_modified {
        Some(dt) => utc_rfc3339(dt),
        None => fallback,
    }
}

/// `published` and `dcterms:issued` elements when the publication date is known.
pub open spec fn published_part(b: Book) -> Seq<char> {
    match b.pubdate {
        Some(dt) => element("published"@, utc_rfc3339(dt)) + element(
            "dcterms:issued"@,
            utc_rfc3339(dt),
        ),
        None => Seq::empty(),
    }
}

/// `<author><name>..</name></author>`.
pub open spec fn author_part(a: Author) -> Seq<char> {
    "<author>"@ + element("name"@, a.name@) + "</author>"@
}

/// One author element per author, in order.
pub open spec fn authors_part(s: Seq<Author>) -> Seq<char>
    decreases s.len(),
{
    if s.len() == 0 {
        Seq::empty()
    } else {
        authors_part(s.drop_last()) + author_part(s.last())
    }
}

/// `summary` and `content` elements holding the comment, when there is one.
pub open spec fn summary_part(comment: Option<String>) -> Seq<char> {
    match comment {
        Some(c) => element("summary"@, c@) + element("content"@, c@),
        None => Seq::empty(),
    }
}

/// A `dcterms:publisher` element, when there is a publisher.
pub open spec fn publisher_part(publisher: Option<String>) -> Seq<char> {
    match publisher {
        Some(p) => element("dcterms:publisher"@, p@),
        None => Seq::empty(),
    }
}

/// Series information: an OPDS `category` (with the index as `scheme`), a
/// `calibre:series` element and, when the index is known, `calibre:series_index`.
pub open spec fn series_part(name: Option<String>, index: Option<String>) -> Seq<char> {
    match name {
        None => Seq::empty(),
        Some(n) => "<category"@ + attribute("term"@, "series"@) + attribute("label"@, n@) + (
        match index {
            Some(i) => attribute("scheme"@, "#"@ + i@),
            None => Seq::empty(),
        }) + "/>"@ + element(
            "calibre:series"@,
            match index {
                Some(i) => n@ + " #"@ + i@,
                None => n@,
            },
        ) + (match index {
            Some(i) => element("calibre:series_index"@, i@),
            None => Seq::empty(),
        }),
    }
}

/// `<category term="tag" label="tag"/>`.
pub open spec fn tag_part(t: Seq<char>) -> Seq<char> {
    "<category"@ + attribute("term"@, t) + attribute("label"@, t) + "/>"@
}

/// One category per tag, in order.
pub open spec fn tags_part(s: Seq<String>) -> Seq<char>
    decreases s.len(),
{
    if s.len() == 0 {
        Seq::empty()
    } else {
        tags_part(s.drop_last()) + tag_part(s.last()@)
    }
}

/// `<calibre:LABEL>value</calibre:LABEL>`.
pub open spec fn custom_part(label: Seq<char>, v: CustomValue) -> Seq<char> {
    element("calibre:"@ + label, custom_value_text(v))
}

/// One element per custom column value, in the order of the entries.
pub open spec fn customs_part(s: Seq<(Seq<char>, CustomValue)>) -> Seq<char>
    decreases s.len(),
{
    if s.len() == 0 {
        Seq::empty()
    } else {
        customs_part(s.drop_last()) + custom_part(s.last().0, s.last().1)
    }
}

/// The cover image link, when the book has a cover.
pub open spec fn cover_part(base: Seq<char>, b: Book) -> Seq<char> {
    if b.has_cover == Some(true) {
        link(
            "http://opds-spec.org/image"@,
            base + "/cover/"@ + signed_decimal(b.id as int),
            "image/jpeg"@,
        )
    } else {
        Seq::empty()
    }
}

/// Media type announced for a (lower-cased) format name.
pub open spec fn format_mime(lower: Seq<char>) -> Seq<char> {
    if lower == "epub"@ {
        "application/epub+zip"@
    } else if lower == "pdf"@ {
        "application/pdf"@
    } else if lower == "mobi"@ {
        "application/x-mobipocket-ebook"@
    } else if lower == "azw3"@ {
        "application/vnd.amazon.ebook"@
    } else {
        "application/octet-stream"@
    }
}

/// The acquisition link of one format: `base/download/ID/format`.
pub open spec fn format_part(base: Seq<char>, id: i64, f: BookFormat) -> Seq<char> {
    link(
        "http://opds-spec.org/acquisition"@,
        base + "/download/"@ + signed_decimal(id as int) + "/"@ + unicode_lowercase(f.format@),
        format_mime(unicode_lowercase(f.format@)),
    )
}

/// One acquisition link per format, in order.
pub open spec fn formats_part(base: Seq<char>, id: i64, s: Seq<BookFormat>) -> Seq<char>
    decreases s.len(),
{
    if s.len() == 0 {
        Seq::empty()
    } else {
        formats_part(base, id, s.drop_last()) + format_part(base, id, s.last())
    }
}

/// The acquisition entry of one book.
#[verifier::opaque]
pub open spec fn book_entry(base: Seq<char>, m: BookMetadata, fallback: Seq<char>) -> Seq<char> {
    "<entry>"@ + element("title"@, m.book.title@) + element(
        "id"@,
        "urn:uuid:"@ + book_urn_id(m.book),
    ) + element("updated"@, entry_updated(m.book, fallback)) + published_part(m.book)
        + authors_part(m.authors@) + summary_part(m.comment) + publisher_part(m.publisher)
        + series_part(m.series_name, m.series_index) + tags_part(m.tags@) + customs_part(
        m.custom_columns@,
    ) + cover_part(base, m.book) + formats_part(base, m.book.id, m.formats@) + "</entry>"@
}

/// The entries of `books`, in order; the `i`-th uses `fallbacks[i]` when its
/// book has no modification time.
pub open spec fn book_entries(
    base: Seq<char>,
    books: Seq<BookMetadata>,
    fallbacks: Seq<Seq<char>>,
) -> Seq<char>
    decreases books.len(),
{
    if books.len() == 0 {
        Seq::empty()
    } else {
        book_entries(base, books.drop_last(), fallbacks) + book_entry(
            base,
            books.last(),
            fallbacks[books.len() - 1],
        )
    }
}

/// An acquisition feed of one page of books, with `next` and `previous`
/// links when there is such a page.
pub open spec fn books_feed(
    base: Seq<char>,
    books: Seq<BookMetadata>,
    page: int,
    per_page: int,
    total: int,
    updated: Seq<char>,
    fallbacks: Seq<Seq<char>>,
) -> Seq<char> {
    xml_declaration() + feed_open(true) + element("id"@, base + "/books"@) + element(
        "title"@,
        "All Books"@,
    ) + element("updated"@, updated) + link(
        "self"@,
        page_href(base, page, per_page),
        ACQUISITION_TYPE@,
    ) + (if page < total_pages(total, per_page) {
        link("next"@, page_href(base, page + 1, per_page), ACQUISITION_TYPE@)
    } else {
        Seq::empty()
    }) + (if page > 1 {
        link("previous"@, page_href(base, page - 1, per_page), ACQUISITION_TYPE@)
    } else {
        Seq::empty()
    }) + book_entries(base, books, fallbacks) + "</feed>"@
}

/// The entry of one category: `NAME (COUNT)`, linking to `base + path/ID`.
pub open spec fn category_entry(
    base: Seq<char>,
    path: Seq<char>,
    c: Category,
    updated: Seq<char>,
) -> Seq<char> {
    "<entry>"@ + element("title"@, c.name@ + " ("@ + signed_decimal(c.count as int) + ")"@)
        + element("id"@, base + path + "/"@ + signed_decimal(c.id as int)) + element(
        "updated"@,
        updated,
    ) + link("subsection"@, base + path + "/"@ + signed_decimal(c.id as int), ACQUISITION_TYPE@)
        + "</entry>"@
}

/// The entries of `cats`, in order; the `i`-th is updated at `stamps[i]`.
pub open spec fn category_entries(
    base: Seq<char>,
    path: Seq<char>,
    cats: Seq<Category>,
    stamps: Seq<Seq<char>>,
) -> Seq<char>
    decreases cats.len(),
{
    if cats.len() == 0 {
        Seq::empty()
    } else {
        category_entries(base, path, cats.drop_last(), stamps) + category_entry(
            base,
            path,
            cats.last(),
            stamps[cats.len() - 1],
        )
    }
}

/// A navigation feed listing categories.
pub open spec fn category_feed(
    base: Seq<char>,
    title: Seq<char>,
    path: Seq<char>,
    cats: Seq<Category>,
    updated: Seq<char>,
    stamps: Seq<Seq<char>>,
) -> Seq<char> {
    xml_declaration() + feed_open(false) + element("id"@, base + path) + element("title"@, title)
        + element("updated"@, updated) + link("self"@, base + path, NAVIGATION_TYPE@)
        + category_entries(base, path, cats, stamps) + "</feed>"@
}

/// The OpenSearch description document.
pub open spec fn opensearch_document(base: Seq<char>) -> Seq<char> {
    xml_declaration() + "<OpenSearchDescription"@ + attribute(
        "xmlns"@,
        "http://a9.com/-/spec/opensearch/1.1/"@,
    ) + ">"@ + element("ShortName"@, "Calibre Library"@) + element(
        "Description"@,
        "Search Calibre Library"@,
    ) + "<Url"@ + attribute("type"@, ACQUISITION_TYPE@) + attribute(
        "template"@,
        base + "/search?q={searchTerms}"@,
    ) + "/>"@ + "</OpenSearchDescription>"@
}

// ---------------------------------------------------------------------------
// The generator
// ---------------------------------------------------------------------------

/// `a` followed by `b`, as a new string.
fn join2(a: &str, b: &str) -> (r: String)
    ensures
        r@ == a@ + b@,
{
    let mut s = String::new();
    push_str(&mut s, a);
    push_str(&mut s, b);
    assert(s@ =~= a@ + b@);
    s
}

/// Collects `n` readings of the clock.
fn clock_readings(n: usize) -> (r: Vec<String>)
    ensures
        r.len() == n,
        forall|i: int| 0 <= i < n ==> is_clock_reading(#[trigger] r@[i]@),
{
    let mut v: Vec<String> = Vec::new();
    let mut i: usize = 0;
    while i < n
        invariant
            i <= n,
            v.len() == i,
            forall|j: int| 0 <= j < i ==> is_clock_reading(#[trigger] v@[j]@),
        decreases n - i,
    {
        v.push(now_rfc3339());
        i = i + 1;
    }
    v
}

/// The root feed is identified by the base URL: its `<id>` element comes
/// right after the feed's opening tag, its text holds no `<` (so the
/// element ends at the first `</id>` after it), and unescaping that text
/// gives exactly `base + "/"`, whatever characters the base holds.
#[verifier::spinoff_prover]
#[verifier::rlimit(60)]
pub proof fn lemma_root_feed_id(base: Seq<char>, stamps: Seq<Seq<char>>)
    ensures
        ({
            let head = xml_declaration() + feed_open(false) + "<id>"@;
            let text = xml_escaped(base + "/"@);
            &&& root_feed(base, stamps).subrange(0, (head.len() + text.len() + 5) as int) == head + text
                + "</id>"@
            &&& xml_unescaped(text) == base + "/"@
            &&& forall|i: int| 0 <= i < text.len() ==> #[trigger] text[i] != '<'
        }),
{
    reveal_strlit("<");
    reveal_strlit("id");
    reveal_strlit(">");
    reveal_strlit("</");
    reveal_strlit("<id>");
    reveal_strlit("</id>");
    let head = xml_declaration() + feed_open(false) + "<id>"@;
    let text = xml_escaped(base + "/"@);
    lemma_escape_round_trip(base + "/"@);
    lemma_escaped_is_plain(base + "/"@);
    assert(element("id"@, base + "/"@) =~= "<id>"@ + text + "</id>"@);
    let r = root_feed(base, stamps);
    let front = head + text + "</id>"@;
    let opened = xml_declaration() + feed_open(false) + element("id"@, base + "/"@);
    assert(opened =~= front);
    assert forall|i: int| 0 <= i < front.len() implies #[trigger] r[i] == front[i] by {
        assert(r[i] == opened[i]);
    }
    assert(r.subrange(0, front.len() as int) =~= front);
}

/// The authors part of an entry is one `<author>` element per author, in
/// order: the part for two lists of authors one after the other is the
/// part for the first followed by the part for the second, and the part
/// for one author is `<author><name>NAME</name></author>`.
pub proof fn lemma_authors_part_per_author(s: Seq<Author>, t: Seq<Author>, a: Author)
    ensures
        authors_part(s + t) == authors_part(s) + authors_part(t),
        authors_part(seq![a]) == "<author>"@ + element("name"@, a.name@) + "</author>"@,
    decreases t.len(),
{
    let one = seq![a];
    assert(one.drop_last() =~= Seq::<Author>::empty());
    assert(one.last() == a);
    assert(authors_part(one.drop_last()) == Seq::<char>::empty());
    assert(authors_part(one) == authors_part(one.drop_last()) + author_part(one.last()));
    assert(authors_part(one) =~= "<author>"@ + element("name"@, a.name@) + "</author>"@);
    if t.len() == 0 {
        assert(s + t =~= s);
        assert(authors_part(s) + authors_part(t) =~= authors_part(s));
    } else {
        lemma_authors_part_per_author(s, t.drop_last(), a);
        assert((s + t).drop_last() =~= s + t.drop_last());
        assert((s + t).last() == t.last());
        assert(authors_part(s + t) =~= authors_part(s) + authors_part(t));
    }
}

/// `m` with the book's cover flag set to `c`.
pub open spec fn with_cover_flag(m: BookMetadata, c: Option<bool>) -> BookMetadata {
    BookMetadata { book: Book { has_cover: c, ..m.book }, ..m }
}

/// The elements of an entry before its cover link.
#[verifier::opaque]
spec fn entry_head(m: BookMetadata, fallback: Seq<char>) -> Seq<char> {
    "<entry>"@ + element("title"@, m.book.title@) + element(
        "id"@,
        "urn:uuid:"@ + book_urn_id(m.book),
    ) + element("updated"@, entry_updated(m.book, fallback)) + published_part(m.book)
        + authors_part(m.authors@) + summary_part(m.comment) + publisher_part(m.publisher)
        + series_part(m.series_name, m.series_index) + tags_part(m.tags@) + customs_part(
        m.custom_columns@,
    )
}

/// An entry is its head, its cover link, then its format links and end tag.
proof fn lemma_entry_split(base: Seq<char>, m: BookMetadata, fallback: Seq<char>)
    ensures
        book_entry(base, m, fallback) == entry_head(m, fallback) + cover_part(base, m.book) + (
        formats_part(base, m.book.id, m.formats@) + "</entry>"@),
{
    reveal(book_entry);
    reveal(entry_head);
    let x = entry_head(m, fallback) + cover_part(base, m.book);
    let f = formats_part(base, m.book.id, m.formats@);
    let e = "</entry>"@;
    assert(book_entry(base, m, fallback) == x + f + e);
    assert(x + f + e =~= x + (f + e));
}

/// An entry carries the cover image link exactly when the book has a
/// cover: a book marked without one (`Some(false)`) gets the same entry as
/// one whose flag is unknown (`None`), and a book with a cover gets that
/// entry with `<link rel="http://opds-spec.org/image"
/// href="BASE/cover/ID" type="image/jpeg"/>` inserted in it.
#[verifier::spinoff_prover]
pub proof fn lemma_cover_link_iff_cover(base: Seq<char>, m: BookMetadata, fallback: Seq<char>)
    ensures
        book_entry(base, with_cover_flag(m, Some(false)), fallback) == book_entry(
            base,
            with_cover_flag(m, None),
            fallback,
        ),
        ({
            let plain = book_entry(base, with_cover_flag(m, None), fallback);
            let image = link(
                "http://opds-spec.org/image"@,
                base + "/cover/"@ + signed_decimal(m.book.id as int),
                "image/jpeg"@,
            );
            exists|i: int|
                0 <= i <= plain.len() && book_entry(base, with_cover_flag(m, Some(true)), fallback)
                    == plain.subrange(0, i) + image + plain.subrange(i, plain.len() as int)
        }),
{
    let no = with_cover_flag(m, None);
    let off = with_cover_flag(m, Some(false));
    let yes = with_cover_flag(m, Some(true));
    lemma_entry_split(base, no, fallback);
    lemma_entry_split(base, off, fallback);
    lemma_entry_split(base, yes, fallback);
    assert(entry_head(off, fallback) == entry_head(no, fallback)) by {
        reveal(entry_head);
    }
    assert(entry_head(yes, fallback) == entry_head(no, fallback)) by {
        reveal(entry_head);
    }
    let head = entry_head(no, fallback);
    let tail = formats_part(base, m.book.id, m.formats@) + "</entry>"@;
    let image = link(
        "http://opds-spec.org/image"@,
        base + "/cover/"@ + signed_decimal(m.book.id as int),
        "image/jpeg"@,
    );
    assert(cover_part(base, no.book) == Seq::<char>::empty());
    assert(cover_part(base, off.book) == Seq::<char>::empty());
    assert(cover_part(base, yes.book) == image);
    let plain = book_entry(base, no, fallback);
    assert(plain == head + Seq::<char>::empty() + tail);
    assert(head + Seq::<char>::empty() =~= head);
    assert(plain == head + tail);
    assert(plain.subrange(0, head.len() as int) =~= head);
    assert(plain.subrange(head.len() as int, plain.len() as int) =~= tail);
}

/// Generates OPDS feed XML for the links under one base URL.
pub struct OpdsGenerator {
    base_url: String,
}

impl OpdsGenerator {
    /// The base URL that every link starts with.
    pub closed spec fn base(&self) -> Seq<char> {
        self.base_url@
    }

    /// A generator whose links start with `base_url`.
    pub fn new(base_url: String) -> (r: Self)
        ensures
            r.base() == base_url@,
    {
        Self { base_url }
    }

    fn write_feed_open(out: &mut String, calibre: bool)
        ensures
            final(out)@ == old(out)@ + feed_open(calibre),
    {
        push_str(out, "<feed");
        write_attribute(out, "xmlns", "http://www.w3.org/2005/Atom");
        write_attribute(out, "xmlns:dcterms", "http://purl.org/dc/terms/");
        write_attribute(out, "xmlns:opds", "http://opds-spec.org/2010/catalog");
        if calibre {
            write_attribute(out, "xmlns:calibre", "http://calibre-ebook.com");
        }
        push_str(out, ">");
        assert(out@ =~= old(out)@ + feed_open(calibre));
    }

    fn write_navigation_entry(
        &self,
        out: &mut String,
        title: &str,
        path: &str,
        summary: Option<&str>,
        updated: &str,
    )
        ensures
            final(out)@ == old(out)@ + navigation_entry(
                self.base(),
                title@,
                path@,
                match summary {
                    Some(s) => Some(s@),
                    None => None,
                },
                updated@,
            ),
    {
        let href = join2(self.base_url.as_str(), path);
        push_str(out, "<entry>");
        write_element(out, "title", title);
        write_element(out, "id", href.as_str());
        write_element(out, "updated", updated);
        match summary {
            Some(s) => write_element(out, "summary", s),
            None => {},
        }
        write_link(out, "subsection", href.as_str(), NAVIGATION_TYPE);
        push_str(out, "</entry>");
        assert(out@ =~= old(out)@ + navigation_entry(
            self.base(),
            title@,
            path@,
            match summary {
                Some(s) => Some(s@),
                None => None,
            },
            updated@,
        ));
    }

    fn write_author(out: &mut String, a: &Author)
        ensures
            final(out)@ == old(out)@ + author_part(*a),
    {
        push_str(out, "<author>");
        write_element(out, "name", a.name.as_str());
        push_str(out, "</author>");
        assert(out@ =~= old(out)@ + author_part(*a));
    }

    fn write_series(out: &mut String, name: &Option<String>, index: &Option<String>)
        ensures
            final(out)@ == old(out)@ + series_part(*name, *index),
    {
        match name {
            None => {
                assert(out@ =~= old(out)@ + series_part(*name, *index));
            },
            Some(n) => {
                push_str(out, "<category");
                write_attribute(out, "term", "series");
                write_attribute(out, "label", n.as_str());
                match index {
                    Some(i) => {
                        let scheme = join2("#", i.as_str());
                        write_attribute(out, "scheme", scheme.as_str());
                    },
                    None => {},
                }
                push_str(out, "/>");
                match index {
                    Some(i) => {
                        let mut info = String::new();
                        push_str(&mut info, n.as_str());
                        push_str(&mut info, " #");
                        push_str(&mut info, i.as_str());
                        assert(info@ =~= n@ + " #"@ + i@);
                        write_element(out, "calibre:series", info.as_str());
                        write_element(out, "calibre:series_index", i.as_str());
                    },
                    None => {
                        write_element(out, "calibre:series", n.as_str());
                    },
                }
                assert(out@ =~= old(out)@ + series_part(*name, *index));
            },
        }
    }

    fn write_custom_value(out: &mut String, label: &String, v: &CustomValue)
        ensures
            final(out)@ == old(out)@ + custom_part(label@, *v),
    {
        let value_str = v.to_text();
        let tag = join2("calibre:", label.as_str());
        write_element(out, tag.as_str(), value_str.as_str());
    }

    fn write_format(&self, out: &mut String, id: i64, f: &BookFormat)
        ensures
            final(out)@ == old(out)@ + format_part(self.base(), id, *f),
    {
        let lower = to_lowercase(f.format.as_str());
        let l = lower.as_str();
        let mime: &str = if str_eq(l, "epub") {
            "application/epub+zip"
        } else if str_eq(l, "pdf") {
            "application/pdf"
        } else if str_eq(l, "mobi") {
            "application/x-mobipocket-ebook"
        } else if str_eq(l, "azw3") {
            "application/vnd.amazon.ebook"
        } else {
            "application/octet-stream"
        };
        assert(mime@ == format_mime(unicode_lowercase(f.format@)));
        let mut href = String::new();
        push_str(&mut href, self.base_url.as_str());
        push_str(&mut href, "/download/");
        push_signed_decimal(&mut href, id);
        push_str(&mut href, "/");
        push_str(&mut href, l);
        assert(href@ =~= self.base() + "/download/"@ + signed_decimal(id as int) + "/"@
            + unicode_lowercase(f.format@));
        write_link(out, "http://opds-spec.org/acquisition", href.as_str(), mime);
    }

    fn write_entry_head(out: &mut String, book: &Book, fallback: &str)
        ensures
            final(out)@ == old(out)@ + "<entry>"@ + element("title"@, book.title@) + element(
                "id"@,
                "urn:uuid:"@ + book_urn_id(*book),
            ) + element("updated"@, entry_updated(*book, fallback@)) + published_part(*book),
    {
        push_str(out, "<entry>");
        write_element(out, "title", book.title.as_str());
        let mut id = String::new();
        push_str(&mut id, "urn:uuid:");
        match &book.uuid {
            Some(u) => push_str(&mut id, u.as_str()),
            None => push_signed_decimal(&mut id, book.id),
        }
        assert(id@ =~= "urn:uuid:"@ + book_urn_id(*book));
        write_element(out, "id", id.as_str());
        let updated: String = match &book.last_modified {
            Some(dt) => naive_to_rfc3339(dt),
            None => String::from_str(fallback),
        };
        write_element(out, "updated", updated.as_str());
        let ghost p0 = out@;
        match &book.pubdate {
            Some(dt) => {
                let pub_str = naive_to_rfc3339(dt);
                write_element(out, "published", pub_str.as_str());
                write_element(out, "dcterms:issued", pub_str.as_str());
            },
            None => {},
        }
        assert(out@ =~= p0 + published_part(*book));
    }

    fn write_authors(out: &mut String, authors: &Vec<Author>)
        ensures
            final(out)@ == old(out)@ + authors_part(authors@),
    {
        let ghost p1 = out@;
        let mut i: usize = 0;
        while i < authors.len()
            invariant
                i <= authors.len(),
                out@ == p1 + authors_part(authors@.take(i as int)),
            decreases authors.len() - i,
        {
            Self::write_author(out, &authors[i]);
            assert(authors@.take(i + 1).drop_last() =~= authors@.take(i as int));
            assert(out@ =~= p1 + authors_part(authors@.take(i + 1)));
            i = i + 1;
        }
        assert(authors@.take(authors.len() as int) =~= authors@);
    }

    fn write_comment_and_publisher(
        out: &mut String,
        comment: &Option<String>,
        publisher: &Option<String>,
    )
        ensures
            final(out)@ == old(out)@ + summary_part(*comment) + publisher_part(*publisher),
    {
        match comment {
            Some(c) => {
                write_element(out, "summary", c.as_str());
                write_element(out, "content", c.as_str());
            },
            None => {},
        }
        match publisher {
            Some(p) => write_element(out, "dcterms:publisher", p.as_str()),
            None => {},
        }
        assert(out@ =~= old(out)@ + summary_part(*comment) + publisher_part(*publisher));
    }

    fn write_tags(out: &mut String, tags: &Vec<String>)
        ensures
            final(out)@ == old(out)@ + tags_part(tags@),
    {
        let ghost p4 = out@;
        let mut i: usize = 0;
        while i < tags.len()
            invariant
                i <= tags.len(),
                out@ == p4 + tags_part(tags@.take(i as int)),
            decreases tags.len() - i,
        {
            let t = tags[i].as_str();
            push_str(out, "<category");
            write_attribute(out, "term", t);
            write_attribute(out, "label", t);
            push_str(out, "/>");
            assert(tags@.take(i + 1).drop_last() =~= tags@.take(i as int));
            assert(out@ =~= p4 + tags_part(tags@.take(i + 1)));
            i = i + 1;
        }
        assert(tags@.take(tags.len() as int) =~= tags@);
    }

    fn write_custom_columns(out: &mut String, m: &BookMetadata)
        ensures
            final(out)@ == old(out)@ + customs_part(m.custom_columns@),
    {
        let ghost p5 = out@;
        let n = m.custom_columns.len();
        let mut i: usize = 0;
        while i < n
            invariant
                n == m.custom_columns@.len(),
                i <= n,
                out@ == p5 + customs_part(m.custom_columns@.take(i as int)),
            decreases n - i,
        {
            let (label, value) = m.custom_columns.entry(i);
            Self::write_custom_value(out, label, value);
            assert(m.custom_columns@.take(i + 1).drop_last() =~= m.custom_columns@.take(i as int));
            assert(out@ =~= p5 + customs_part(m.custom_columns@.take(i + 1)));
            i = i + 1;
        }
        assert(m.custom_columns@.take(n as int) =~= m.custom_columns@);
    }

    fn write_cover(&self, out: &mut String, book: &Book)
        ensures
            final(out)@ == old(out)@ + cover_part(self.base(), *book),
    {
        if book.has_cover == Some(true) {
            let mut href = String::new();
            push_str(&mut href, self.base_url.as_str());
            push_str(&mut href, "/cover/");
            push_signed_decimal(&mut href, book.id);
            assert(href@ =~= self.base() + "/cover/"@ + signed_decimal(book.id as int));
            write_link(out, "http://opds-spec.org/image", href.as_str(), "image/jpeg");
        } else {
            assert(out@ =~= old(out)@ + cover_part(self.base(), *book));
        }
    }

    fn write_formats(&self, out: &mut String, id: i64, formats: &Vec<BookFormat>)
        ensures
            final(out)@ == old(out)@ + formats_part(self.base(), id, formats@),
    {
        let ghost p7 = out@;
        let mut i: usize = 0;
        while i < formats.len()
            invariant
                i <= formats.len(),
                out@ == p7 + formats_part(self.base(), id, formats@.take(i as int)),
            decreases formats.len() - i,
        {
            self.write_format(out, id, &formats[i]);
            assert(formats@.take(i + 1).drop_last() =~= formats@.take(i as int));
            assert(out@ =~= p7 + formats_part(self.base(), id, formats@.take(i + 1)));
            i = i + 1;
        }
        assert(formats@.take(formats.len() as int) =~= formats@);
    }

    #[verifier::spinoff_prover]
    #[verifier::rlimit(40)]
    fn write_book_entry(&self, out: &mut String, m: &BookMetadata, fallback: &str)
        ensures
            final(out)@ == old(out)@ + book_entry(self.base(), *m, fallback@),
    {
        Self::write_entry_head(out, &m.book, fallback);
        Self::write_authors(out, &m.authors);
        Self::write_comment_and_publisher(out, &m.comment, &m.publisher);
        Self::write_series(out, &m.series_name, &m.series_index);
        Self::write_tags(out, &m.tags);
        Self::write_custom_columns(out, m);
        self.write_cover(out, &m.book);
        self.write_formats(out, m.book.id, &m.formats);
        push_str(out, "</entry>");
        reveal(book_entry);
        assert(out@ =~= old(out)@ + book_entry(self.base(), *m, fallback@));
    }

    /// The root catalog feed, with `stamps` as the `updated` times of the
    /// feed and of its nine entries.
    pub fn render_root(&self, stamps: &Vec<String>) -> (r: String)
        requires
            stamps.len() == 10,
        ensures
            r@ == root_feed(self.base(), string_views(stamps@)),
    {
        let base = self.base_url.as_str();
        let root = join2(base, "/");
        let search = join2(base, "/search.xml");
        let mut out = String::new();
        push_str(&mut out, "<?xml version=\"1.0\" encoding=\"UTF-8\"?>");
        Self::write_feed_open(&mut out, false);
        write_element(&mut out, "id", root.as_str());
        write_element(&mut out, "title", "Calibre Library");
        write_element(&mut out, "updated", stamps[0].as_str());
        push_str(&mut out, "<author>");
        write_element(&mut out, "name", "Calibre OPDS Server");
        push_str(&mut out, "</author>");
        write_link(&mut out, "self", root.as_str(), NAVIGATION_TYPE);
        write_link(&mut out, "search", search.as_str(), "application/opensearchdescription+xml");
        self.write_navigation_entry(
            &mut out,
            "All Books",
            "/books",
            Some("Browse all books in the library"),
            stamps[1].as_str(),
        );
        self.write_navigation_entry(
            &mut out,
            "Recently Added",
            "/recent",
            Some("100 most recently added books"),
            stamps[2].as_str(),
        );
        self.write_navigation_entry(
            &mut out,
            "By Author",
            "/authors",
            Some("Browse books by author"),
            stamps[3].as_str(),
        );
        self.write_navigation_entry(
            &mut out,
            "By Series",
            "/series",
            Some("Browse books by series"),
            stamps[4].as_str(),
        );
        self.write_navigation_entry(
            &mut out,
            "By Tag",
            "/tags",
            Some("Browse books by tag/genre"),
            stamps[5].as_str(),
        );
        self.write_navigation_entry(
            &mut out,
            "By Publisher",
            "/publishers",
            Some("Browse books by publisher"),
            stamps[6].as_str(),
        );
        self.write_navigation_entry(
            &mut out,
            "By Language",
            "/languages",
            Some("Browse books by language"),
            stamps[7].as_str(),
        );
        self.write_navigation_entry(
            &mut out,
            "By Rating",
            "/ratings",
            Some("Browse books by rating"),
            stamps[8].as_str(),
        );
        self.write_navigation_entry(
            &mut out,
            "Read by Year",
            "/read-years",
            Some("Browse books read by year"),
            stamps[9].as_str(),
        );
        push_str(&mut out, "</feed>");
        assert(out@ =~= root_feed(self.base(), string_views(stamps@)));
        out
    }

    /// Generates the root catalog feed, stamped with the current time.
    pub fn generate_root(&self) -> (r: String)
        ensures
            exists|stamps: Seq<Seq<char>>|
                stamps.len() == 10 && (forall|i: int|
                    0 <= i < 10 ==> is_clock_reading(#[trigger] stamps[i])) && r@ == root_feed(
                    self.base(),
                    stamps,
                ),
    {
        let stamps = clock_readings(10);
        let r = self.render_root(&stamps);
        assert(string_views(stamps@).len() == 10);
        r
    }

    fn write_page_link(&self, out: &mut String, rel: &str, page: i64, per_page: i64)
        ensures
            final(out)@ == old(out)@ + link(
                rel@,
                page_href(self.base(), page as int, per_page as int),
                ACQUISITION_TYPE@,
            ),
    {
        let mut href = String::new();
        push_str(&mut href, self.base_url.as_str());
        push_str(&mut href, "/books?page=");
        push_signed_decimal(&mut href, page);
        push_str(&mut href, "&per_page=");
        push_signed_decimal(&mut href, per_page);
        assert(href@ =~= page_href(self.base(), page as int, per_page as int));
        write_link(out, rel, href.as_str(), ACQUISITION_TYPE);
    }

    fn write_book_entries(&self, out: &mut String, books: &Vec<BookMetadata>, fallbacks: &Vec<String>)
        requires
            fallbacks.len() == books.len(),
        ensures
            final(out)@ == old(out)@ + book_entries(self.base(), books@, string_views(fallbacks@)),
    {
        let ghost q2 = out@;
        let mut i: usize = 0;
        while i < books.len()
            invariant
                i <= books.len(),
                fallbacks.len() == books.len(),
                out@ == q2 + book_entries(self.base(), books@.take(i as int), string_views(fallbacks@)),
            decreases books.len() - i,
        {
            self.write_book_entry(out, &books[i], fallbacks[i].as_str());
            assert(books@.take(i + 1).drop_last() =~= books@.take(i as int));
            assert(out@ =~= q2 + book_entries(self.base(), books@.take(i + 1), string_views(fallbacks@)));
            i = i + 1;
        }
        assert(books@.take(books.len() as int) =~= books@);
    }

    /// An acquisition feed of one page of books. `updated` is the feed's
    /// time; `fallbacks[i]` is the time of the `i`-th entry when its book
    /// has no modification time.
    pub fn render_books_feed(
        &self,
        books: &Vec<BookMetadata>,
        page: i64,
        per_page: i64,
        total: i64,
        updated: &str,
        fallbacks: &Vec<String>,
    ) -> (r: String)
        requires
            per_page != 0,
            i64::MIN <= total + per_page <= i64::MAX,
            i64::MIN <= total + per_page - 1,
            !(total + per_page - 1 == i64::MIN && per_page == -1),
            fallbacks.len() == books.len(),
        ensures
            r@ == books_feed(
                self.base(),
                books@,
                page as int,
                per_page as int,
                total as int,
                updated@,
                string_views(fallbacks@),
            ),
    {
        let id = join2(self.base_url.as_str(), "/books");
        let mut out = String::new();
        push_str(&mut out, "<?xml version=\"1.0\" encoding=\"UTF-8\"?>");
        Self::write_feed_open(&mut out, true);
        write_element(&mut out, "id", id.as_str());
        write_element(&mut out, "title", "All Books");
        write_element(&mut out, "updated", updated);
        self.write_page_link(&mut out, "self", page, per_page);
        let pages = div_toward_zero(total + per_page - 1, per_page);
        if page < pages {
            self.write_page_link(&mut out, "next", page + 1, per_page);
        }
        if page > 1 {
            self.write_page_link(&mut out, "previous", page - 1, per_page);
        }
        self.write_book_entries(&mut out, books, fallbacks);
        push_str(&mut out, "</feed>");
        assert(out@ =~= books_feed(
            self.base(),
            books@,
            page as int,
            per_page as int,
            total as int,
            updated@,
            string_views(fallbacks@),
        ));
        out
    }

    /// Generates an acquisition feed of one page of books, stamped with the
    /// current time.
    pub fn generate_books_feed(
        &self,
        books: Vec<BookMetadata>,
        page: i64,
        per_page: i64,
        total: i64,
    ) -> (r: String)
        requires
            per_page != 0,
            i64::MIN <= total + per_page <= i64::MAX,
            i64::MIN <= total + per_page - 1,
            !(total + per_page - 1 == i64::MIN && per_page == -1),
        ensures
            exists|updated: Seq<char>, fallbacks: Seq<Seq<char>>|
                fallbacks.len() == books@.len() && is_clock_reading(updated) && (forall|i: int|
                    0 <= i < fallbacks.len() ==> is_clock_reading(#[trigger] fallbacks[i]))
                    && r@ == books_feed(
                    self.base(),
                    books@,
                    page as int,
                    per_page as int,
                    total as int,
                    updated,
                    fallbacks,
                ),
    {
        let updated = now_rfc3339();
        let fallbacks = clock_readings(books.len());
        let r = self.render_books_feed(&books, page, per_page, total, updated.as_str(), &fallbacks);
        assert(string_views(fallbacks@).len() == books@.len());
        r
    }

    fn write_category_entry(&self, out: &mut String, path: &str, c: &Category, updated: &str)
        ensures
            final(out)@ == old(out)@ + category_entry(self.base(), path@, *c, updated@),
    {
        let mut title = String::new();
        push_str(&mut title, c.name.as_str());
        push_str(&mut title, " (");
        push_signed_decimal(&mut title, c.count);
        push_str(&mut title, ")");
        assert(title@ =~= c.name@ + " ("@ + signed_decimal(c.count as int) + ")"@);
        let mut href = String::new();
        push_str(&mut href, self.base_url.as_str());
        push_str(&mut href, path);
        push_str(&mut href, "/");
        push_signed_decimal(&mut href, c.id);
        assert(href@ =~= self.base() + path@ + "/"@ + signed_decimal(c.id as int));
        push_str(out, "<entry>");
        write_element(out, "title", title.as_str());
        write_element(out, "id", href.as_str());
        write_element(out, "updated", updated);
        write_link(out, "subsection", href.as_str(), ACQUISITION_TYPE);
        push_str(out, "</entry>");
        assert(out@ =~= old(out)@ + category_entry(self.base(), path@, *c, updated@));
    }

    /// A navigation feed listing `categories` under `path`. `updated` is the
    /// feed's time, `stamps[i]` that of the `i`-th entry.
    pub fn render_category_feed(
        &self,
        title: &str,
        path: &str,
        categories: &Vec<Category>,
        updated: &str,
        stamps: &Vec<String>,
    ) -> (r: String)
        requires
            stamps.len() == categories.len(),
        ensures
            r@ == category_feed(
                self.base(),
                title@,
                path@,
                categories@,
                updated@,
                string_views(stamps@),
            ),
    {
        let id = join2(self.base_url.as_str(), path);
        let mut out = String::new();
        push_str(&mut out, "<?xml version=\"1.0\" encoding=\"UTF-8\"?>");
        Self::write_feed_open(&mut out, false);
        write_element(&mut out, "id", id.as_str());
        write_element(&mut out, "title", title);
        write_element(&mut out, "updated", updated);
        write_link(&mut out, "self", id.as_str(), NAVIGATION_TYPE);
        let ghost q = out@;
        let mut i: usize = 0;
        while i < categories.len()
            invariant
                i <= categories.len(),
                stamps.len() == categories.len(),
                out@ == q + category_entries(
                    self.base(),
                    path@,
                    categories@.take(i as int),
                    string_views(stamps@),
                ),
            decreases categories.len() - i,
        {
            self.write_category_entry(&mut out, path, &categories[i], stamps[i].as_str());
            assert(categories@.take(i + 1).drop_last() =~= categories@.take(i as int));
            assert(out@ =~= q + category_entries(
                self.base(),
                path@,
                categories@.take(i + 1),
                string_views(stamps@),
            ));
            i = i + 1;
        }
        assert(categories@.take(categories.len() as int) =~= categories@);
        push_str(&mut out, "</feed>");
        assert(out@ =~= category_feed(
            self.base(),
            title@,
            path@,
            categories@,
            updated@,
            string_views(stamps@),
        ));
        out
    }

    /// Generates a category list feed (authors, series, tags, ...), stamped
    /// with the current time.
    pub fn generate_category_feed(&self, title: &str, path: &str, categories: Vec<Category>) -> (r:
        String)
        ensures
            exists|updated: Seq<char>, stamps: Seq<Seq<char>>|
                stamps.len() == categories@.len() && is_clock_reading(updated) && (forall|i: int|
                    0 <= i < stamps.len() ==> is_clock_reading(#[trigger] stamps[i]))
                    && r@ == category_feed(
                    self.base(),
                    title@,
                    path@,
                    categories@,
                    updated,
                    stamps,
                ),
    {
        let updated = now_rfc3339();
        let stamps = clock_readings(categories.len());
        let r = self.render_category_feed(title, path, &categories, updated.as_str(), &stamps);
        assert(string_views(stamps@).len() == categories@.len());
        r
    }

    /// Generates the OpenSearch descriptor.
    pub fn generate_opensearch(&self) -> (r: String)
        ensures
            r@ == opensearch_document(self.base()),
    {
        let template = join2(self.base_url.as_str(), "/search?q={searchTerms}");
        let mut out = String::new();
        push_str(&mut out, "<?xml version=\"1.0\" encoding=\"UTF-8\"?>");
        push_str(&mut out, "<OpenSearchDescription");
        write_attribute(&mut out, "xmlns", "http://a9.com/-/spec/opensearch/1.1/");
        push_str(&mut out, ">");
        write_element(&mut out, "ShortName", "Calibre Library");
        write_element(&mut out, "Description", "Search Calibre Library");
        push_str(&mut out, "<Url");
        write_attribute(&mut out, "type", ACQUISITION_TYPE);
        write_attribute(&mut out, "template", template.as_str());
        push_str(&mut out, "/>");
        push_str(&mut out, "</OpenSearchDescription>");
        assert(out@ =~= opensearch_document(self.base()));
        out
    }
}

} // verus!
