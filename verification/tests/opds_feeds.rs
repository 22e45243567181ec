use calibre_server::db::models::{
    Author, Book, BookFormat, BookMetadata, Category, CustomColumns, CustomValue,
};
use calibre_server::opds::{div_toward_zero, OpdsGenerator, ACQUISITION_TYPE, NAVIGATION_TYPE};
use chrono::NaiveDate;

const DECL: &str = "<?xml version=\"1.0\" encoding=\"UTF-8\"?>";

fn plain_book(id: i64, title: &str) -> BookMetadata {
    BookMetadata {
        book: Book {
            id,
            title: title.to_string(),
            sort: None,
            timestamp: None,
            pubdate: None,
            series_index: None,
            author_sort: None,
            path: format!("Author/{} ({})", title, id),
            uuid: None,
            has_cover: None,
            last_modified: None,
        },
        authors: vec![],
        formats: vec![],
        custom_columns: CustomColumns::new(),
        series_name: None,
        series_index: None,
        tags: vec![],
        publisher: None,
        comment: None,
    }
}

fn rich_book() -> BookMetadata {
    let dt = NaiveDate::from_ymd_opt(2024, 1, 2).unwrap().and_hms_opt(3, 4, 5).unwrap();
    let mut custom = CustomColumns::new();
    custom.insert("read".to_string(), CustomValue::Bool(true));
    custom.insert("pages".to_string(), CustomValue::Int(-3));
    let mut m = plain_book(7, "A & B");
    m.book.uuid = Some("u-1".to_string());
    m.book.last_modified = Some(dt);
    m.book.pubdate = Some(dt);
    m.book.has_cover = Some(true);
    m.authors = vec![Author { id: 1, name: "Ann".to_string(), sort: None, link: None }];
    m.comment = Some("Nice <b>".to_string());
    m.publisher = Some("Pub".to_string());
    m.series_name = Some("S".to_string());
    m.series_index = Some("1.5".to_string());
    m.tags = vec!["t1".to_string()];
    m.custom_columns = custom;
    m.formats = vec![
        BookFormat { id: 1, book: 7, format: "EPUB".to_string(), uncompressed_size: None, name: "A - B".to_string() },
        BookFormat { id: 2, book: 7, format: "CBZ".to_string(), uncompressed_size: None, name: "A - B".to_string() },
    ];
    m
}

fn rich_entry() -> String {
    let mut e = String::new();
    e.push_str("<entry><title>A &amp; B</title><id>urn:uuid:u-1</id>");
    e.push_str("<updated>2024-01-02T03:04:05+00:00</updated>");
    e.push_str("<published>2024-01-02T03:04:05+00:00</published>");
    e.push_str("<dcterms:issued>2024-01-02T03:04:05+00:00</dcterms:issued>");
    e.push_str("<author><name>Ann</name></author>");
    e.push_str("<summary>Nice &lt;b&gt;</summary><content>Nice &lt;b&gt;</content>");
    e.push_str("<dcterms:publisher>Pub</dcterms:publisher>");
    e.push_str("<category term=\"series\" label=\"S\" scheme=\"#1.5\"/>");
    e.push_str("<calibre:series>S #1.5</calibre:series><calibre:series_index>1.5</calibre:series_index>");
    e.push_str("<category term=\"t1\" label=\"t1\"/>");
    e.push_str("<calibre:read>true</calibre:read><calibre:pages>-3</calibre:pages>");
    e.push_str("<link rel=\"http://opds-spec.org/image\" href=\"http://x/cover/7\" type=\"image/jpeg\"/>");
    e.push_str("<link rel=\"http://opds-spec.org/acquisition\" href=\"http://x/download/7/epub\" type=\"application/epub+zip\"/>");
    e.push_str("<link rel=\"http://opds-spec.org/acquisition\" href=\"http://x/download/7/cbz\" type=\"application/octet-stream\"/>");
    e.push_str("</entry>");
    e
}

fn feed_header(calibre: bool) -> String {
    let mut h = String::from("<feed xmlns=\"http://www.w3.org/2005/Atom\" xmlns:dcterms=\"http://purl.org/dc/terms/\" xmlns:opds=\"http://opds-spec.org/2010/catalog\"");
    if calibre {
        h.push_str(" xmlns:calibre=\"http://calibre-ebook.com\"");
    }
    h.push('>');
    h
}

fn page_link(rel: &str, page: i64, per_page: i64) -> String {
    format!(
        "<link rel=\"{}\" href=\"http://x/books?page={}&amp;per_page={}\" type=\"{}\"/>",
        rel, page, per_page, ACQUISITION_TYPE
    )
}

#[test]
fn opensearch_document() {
    let g = OpdsGenerator::new("http://x".to_string());
    let expected = format!(
        "{}<OpenSearchDescription xmlns=\"http://a9.com/-/spec/opensearch/1.1/\"><ShortName>Calibre Library</ShortName><Description>Search Calibre Library</Description><Url type=\"{}\" template=\"http://x/search?q={{searchTerms}}\"/></OpenSearchDescription>",
        DECL, ACQUISITION_TYPE
    );
    assert_eq!(g.generate_opensearch(), expected);
}

#[test]
fn root_feed_layout() {
    let g = OpdsGenerator::new("http://x".to_string());
    let stamps: Vec<String> = (0..10).map(|i| format!("T{}", i)).collect();
    let out = g.render_root(&stamps);
    let nav = |title: &str, path: &str, summary: &str, stamp: &str| {
        format!(
            "<entry><title>{}</title><id>http://x{}</id><updated>{}</updated><summary>{}</summary><link rel=\"subsection\" href=\"http://x{}\" type=\"{}\"/></entry>",
            title, path, stamp, summary, path, NAVIGATION_TYPE
        )
    };
    let mut expected = String::from(DECL);
    expected.push_str(&feed_header(false));
    expected.push_str("<id>http://x/</id><title>Calibre Library</title><updated>T0</updated>");
    expected.push_str("<author><name>Calibre OPDS Server</name></author>");
    expected.push_str(&format!("<link rel=\"self\" href=\"http://x/\" type=\"{}\"/>", NAVIGATION_TYPE));
    expected.push_str("<link rel=\"search\" href=\"http://x/search.xml\" type=\"application/opensearchdescription+xml\"/>");
    let sections = [
        ("All Books", "/books", "Browse all books in the library"),
        ("Recently Added", "/recent", "100 most recently added books"),
        ("By Author", "/authors", "Browse books by author"),
        ("By Series", "/series", "Browse books by series"),
        ("By Tag", "/tags", "Browse books by tag/genre"),
        ("By Publisher", "/publishers", "Browse books by publisher"),
        ("By Language", "/languages", "Browse books by language"),
        ("By Rating", "/ratings", "Browse books by rating"),
        ("Read by Year", "/read-years", "Browse books read by year"),
    ];
    for (i, (t, p, s)) in sections.iter().enumerate() {
        expected.push_str(&nav(t, p, s, &format!("T{}", i + 1)));
    }
    expected.push_str("</feed>");
    assert_eq!(out, expected);
}

#[test]
fn generated_root_is_stamped() {
    let g = OpdsGenerator::new("http://x".to_string());
    let out = g.generate_root();
    assert!(out.starts_with(DECL));
    assert!(out.ends_with("</feed>"));
    assert_eq!(out.matches("<updated>").count(), 10);
    assert_eq!(out.matches("<entry>").count(), 9);
}

#[test]
fn book_entry_with_every_part() {
    let g = OpdsGenerator::new("http://x".to_string());
    let out = g.render_books_feed(&vec![rich_book()], 1, 50, 1, "NOW", &vec!["FALLBACK".to_string()]);
    let mut expected = String::from(DECL);
    expected.push_str(&feed_header(true));
    expected.push_str("<id>http://x/books</id><title>All Books</title><updated>NOW</updated>");
    expected.push_str(&page_link("self", 1, 50));
    expected.push_str(&rich_entry());
    expected.push_str("</feed>");
    assert_eq!(out, expected);
}

#[test]
fn plain_book_entry_uses_id_and_fallback_time() {
    let g = OpdsGenerator::new("http://x".to_string());
    let out = g.render_books_feed(&vec![plain_book(12, "T")], 1, 50, 1, "NOW", &vec!["F0".to_string()]);
    assert!(out.contains("<entry><title>T</title><id>urn:uuid:12</id><updated>F0</updated></entry>"));
}

#[test]
fn pagination_links() {
    let g = OpdsGenerator::new("http://x".to_string());
    let books: Vec<BookMetadata> = vec![];
    let none: Vec<String> = vec![];
    // First of three pages: next only.
    let first = g.render_books_feed(&books, 1, 10, 25, "N", &none);
    assert!(first.contains(&page_link("next", 2, 10)));
    assert!(!first.contains("rel=\"previous\""));
    // Middle page: both.
    let middle = g.render_books_feed(&books, 2, 10, 25, "N", &none);
    assert!(middle.contains(&page_link("next", 3, 10)));
    assert!(middle.contains(&page_link("previous", 1, 10)));
    // Last page: previous only.
    let last = g.render_books_feed(&books, 3, 10, 25, "N", &none);
    assert!(!last.contains("rel=\"next\""));
    assert!(last.contains(&page_link("previous", 2, 10)));
    // Exactly full pages: 20 books in 2 pages.
    let full = g.render_books_feed(&books, 2, 10, 20, "N", &none);
    assert!(!full.contains("rel=\"next\""));
}

#[test]
fn truncating_division() {
    assert_eq!(div_toward_zero(7, 2), 3);
    assert_eq!(div_toward_zero(-7, 2), -3);
    assert_eq!(div_toward_zero(7, -2), -3);
    assert_eq!(div_toward_zero(-7, -2), 3);
    assert_eq!(div_toward_zero(i64::MIN, 1), i64::MIN);
    assert_eq!(div_toward_zero(i64::MIN, 2), i64::MIN / 2);
    for (a, b) in [(34i64, 10i64), (-34, 10), (9, -10), (0, -3)] {
        assert_eq!(div_toward_zero(a, b), a / b);
    }
}

#[test]
fn generated_books_feed_counts_entries() {
    let g = OpdsGenerator::new("http://x".to_string());
    let out = g.generate_books_feed(vec![plain_book(1, "a"), plain_book(2, "b")], 1, 50, 2);
    assert_eq!(out.matches("<entry>").count(), 2);
    assert!(out.contains("<id>urn:uuid:1</id>"));
    assert!(out.contains("<id>urn:uuid:2</id>"));
}

#[test]
fn category_feed_layout() {
    let g = OpdsGenerator::new("http://x".to_string());
    let cats = vec![
        Category { id: 3, name: "Asimov".to_string(), count: 12 },
        Category { id: 9, name: "<Unknown>".to_string(), count: 1 },
    ];
    let out = g.render_category_feed("Authors", "/authors", &cats, "U", &vec!["A".to_string(), "B".to_string()]);
    let mut expected = String::from(DECL);
    expected.push_str(&feed_header(false));
    expected.push_str("<id>http://x/authors</id><title>Authors</title><updated>U</updated>");
    expected.push_str(&format!("<link rel=\"self\" href=\"http://x/authors\" type=\"{}\"/>", NAVIGATION_TYPE));
    expected.push_str(&format!("<entry><title>Asimov (12)</title><id>http://x/authors/3</id><updated>A</updated><link rel=\"subsection\" href=\"http://x/authors/3\" type=\"{}\"/></entry>", ACQUISITION_TYPE));
    expected.push_str(&format!("<entry><title>&lt;Unknown&gt; (1)</title><id>http://x/authors/9</id><updated>B</updated><link rel=\"subsection\" href=\"http://x/authors/9\" type=\"{}\"/></entry>", ACQUISITION_TYPE));
    expected.push_str("</feed>");
    assert_eq!(out, expected);
    let generated = g.generate_category_feed("Authors", "/authors", cats);
    assert_eq!(generated.matches("<entry>").count(), 2);
}

#[test]
fn custom_columns_replace_in_place() {
    let mut c = CustomColumns::new();
    c.insert("a".to_string(), CustomValue::Int(1));
    c.insert("b".to_string(), CustomValue::Text("x".to_string()));
    c.insert("a".to_string(), CustomValue::Int(2));
    assert_eq!(c.len(), 2);
    let (l0, v0) = c.entry(0);
    assert_eq!(l0, "a");
    assert!(matches!(v0, CustomValue::Int(2)));
    let (l1, _) = c.entry(1);
    assert_eq!(l1, "b");
    let d = c.clone();
    assert_eq!(d.len(), 2);
}

#[test]
fn custom_value_texts() {
    assert_eq!(CustomValue::Bool(false).to_text(), "false");
    assert_eq!(CustomValue::Int(-12).to_text(), "-12");
    assert_eq!(CustomValue::Float("2.5".to_string()).to_text(), "2.5");
    assert_eq!(CustomValue::DateTime("2024-01-01".to_string()).to_text(), "2024-01-01");
}

#[test]
fn root_feed_id_escapes_base() {
    let g = OpdsGenerator::new("http://x/a&b<\"c'".to_string());
    let stamps: Vec<String> = (0..10).map(|i| format!("T{}", i)).collect();
    let out = g.render_root(&stamps);
    let head = format!("{}{}", DECL, feed_header(false));
    assert!(out.starts_with(&format!("{}<id>http://x/a&amp;b&lt;&quot;c&apos;/</id>", head)));
}

#[test]
fn generated_stamps_are_rfc3339() {
    let g = OpdsGenerator::new("http://x".to_string());
    let out = g.generate_root();
    let stamp = out.split("<updated>").nth(1).unwrap().split("</updated>").next().unwrap();
    assert!(chrono::DateTime::parse_from_rfc3339(stamp).is_ok());
}
