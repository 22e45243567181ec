use calibre_server::db::{
    assemble_custom_columns, books_query, column_lookups, connection_url, custom_column_table,
    custom_value_query, keep_loaded, multi_value, normalized_value_query, search_pattern,
    value_kind, year_category, ValueKind,
};
use calibre_server::html::{
    date_part_of, is_whitespace, relative_date, relative_date_on, relative_phrase_of,
};
use calibre_server::db::models::{Book, BookFormat, BookMetadata, CustomColumn, CustomColumns, CustomValue};
use calibre_server::web::{
    cover_path, default_page, default_per_page, default_view, page_offset, plan_download,
};
use chrono::NaiveDate;

fn book(id: i64, title: &str) -> BookMetadata {
    BookMetadata {
        book: Book {
            id,
            title: title.to_string(),
            sort: None,
            timestamp: None,
            pubdate: None,
            series_index: None,
            author_sort: None,
            path: "Author/Title (4)".to_string(),
            uuid: None,
            has_cover: None,
            last_modified: None,
        },
        authors: vec![],
        formats: vec![
            BookFormat { id: 1, book: id, format: "PDF".to_string(), uncompressed_size: None, name: "Title - Author".to_string() },
            BookFormat { id: 2, book: id, format: "EPUB".to_string(), uncompressed_size: None, name: "Title - Author".to_string() },
        ],
        custom_columns: CustomColumns::new(),
        series_name: None,
        series_index: None,
        tags: vec![],
        publisher: None,
        comment: None,
    }
}

fn column(id: i64, label: &str, datatype: &str, deleted: bool) -> CustomColumn {
    CustomColumn {
        id,
        label: label.to_string(),
        name: label.to_uppercase(),
        datatype: datatype.to_string(),
        mark_for_delete: deleted,
        editable: true,
        display: "{}".to_string(),
        is_multiple: false,
        normalized: false,
    }
}

#[test]
fn book_listing_queries() {
    assert_eq!(books_query("title_asc"), "SELECT * FROM books ORDER BY books.sort ASC LIMIT ? OFFSET ?");
    assert_eq!(books_query("title_desc"), "SELECT * FROM books ORDER BY books.sort DESC LIMIT ? OFFSET ?");
    assert_eq!(books_query("date_desc"), "SELECT * FROM books ORDER BY books.timestamp DESC LIMIT ? OFFSET ?");
    assert_eq!(books_query("date_asc"), "SELECT * FROM books ORDER BY books.timestamp ASC LIMIT ? OFFSET ?");
    assert!(books_query("author_asc").contains("LIMIT 1) ASC LIMIT ? OFFSET ?"));
    assert!(books_query("author_desc").contains("LIMIT 1) DESC LIMIT ? OFFSET ?"));
    assert!(books_query("rating_asc").ends_with("ASC NULLS LAST LIMIT ? OFFSET ?"));
    assert!(books_query("rating_desc").ends_with("DESC NULLS LAST LIMIT ? OFFSET ?"));
    assert_eq!(books_query(""), "SELECT * FROM books ORDER BY books.id LIMIT ? OFFSET ?");
    assert_eq!(books_query("TITLE_ASC"), "SELECT * FROM books ORDER BY books.id LIMIT ? OFFSET ?");
}

#[test]
fn small_query_texts() {
    assert_eq!(connection_url("/lib/metadata.db"), "sqlite:///lib/metadata.db?mode=ro");
    assert_eq!(search_pattern("dune"), "%dune%");
    assert_eq!(custom_column_table(3), "custom_column_3");
    assert_eq!(custom_value_query("custom_column_3"), "SELECT value FROM custom_column_3 WHERE book = ?");
}

#[test]
fn value_kinds() {
    for d in ["text", "comments", "series", "enumeration"] {
        assert_eq!(value_kind(d), Some(ValueKind::Text));
    }
    assert_eq!(value_kind("int"), Some(ValueKind::Int));
    assert_eq!(value_kind("rating"), Some(ValueKind::Int));
    assert_eq!(value_kind("float"), Some(ValueKind::Float));
    assert_eq!(value_kind("bool"), Some(ValueKind::Bool));
    assert_eq!(value_kind("datetime"), Some(ValueKind::DateTime));
    assert_eq!(value_kind("composite"), None);
}

#[test]
fn lookups_skip_deleted_columns() {
    let cols = vec![
        column(1, "read", "bool", false),
        column(2, "gone", "text", true),
        column(3, "primera_vez", "datetime", false),
    ];
    let l = column_lookups(&cols);
    assert_eq!(l.len(), 2);
    assert_eq!(l[0].label, "read");
    assert_eq!(l[0].query, "SELECT value FROM custom_column_1 WHERE book = ?");
    assert_eq!(l[0].kind, Some(ValueKind::Bool));
    assert_eq!(l[1].label, "primera_vez");
    assert_eq!(l[1].query, "SELECT value FROM custom_column_3 WHERE book = ?");
    assert_eq!(l[1].kind, Some(ValueKind::DateTime));
}

#[test]
fn custom_values_assembled() {
    let cols = vec![column(1, "a", "int", false), column(2, "b", "text", false), column(3, "a", "int", false)];
    let l = column_lookups(&cols);
    let values = vec![Some(CustomValue::Int(1)), None, Some(CustomValue::Int(3))];
    let c = assemble_custom_columns(&l, values);
    assert_eq!(c.len(), 1);
    let (label, v) = c.entry(0);
    assert_eq!(label, "a");
    assert!(matches!(v, CustomValue::Int(3)));
}

#[test]
fn listing_keeps_loaded_books() {
    let results: Vec<Result<BookMetadata, String>> = vec![
        Ok(book(1, "a")),
        Err("missing".to_string()),
        Ok(book(3, "c")),
    ];
    let kept = keep_loaded(results);
    assert_eq!(kept.len(), 2);
    assert_eq!(kept[0].book.id, 1);
    assert_eq!(kept[1].book.id, 3);
}

#[test]
fn year_categories() {
    let c = year_category("2023".to_string(), 14);
    assert_eq!((c.id, c.name.as_str(), c.count), (2023, "2023", 14));
    let d = year_category("n/a".to_string(), 1);
    assert_eq!(d.id, 0);
}

#[test]
fn relative_phrases() {
    assert_eq!(relative_phrase_of(0), "today");
    assert_eq!(relative_phrase_of(1), "yesterday");
    assert_eq!(relative_phrase_of(2), "2 days ago");
    assert_eq!(relative_phrase_of(29), "29 days ago");
    assert_eq!(relative_phrase_of(-3), "-3 days ago");
    assert_eq!(relative_phrase_of(30), "1 month ago");
    assert_eq!(relative_phrase_of(59), "1 month ago");
    assert_eq!(relative_phrase_of(60), "2 months ago");
    assert_eq!(relative_phrase_of(364), "12 months ago");
    assert_eq!(relative_phrase_of(365), "1 year ago");
    assert_eq!(relative_phrase_of(800), "2 years ago");
}

#[test]
fn date_parts() {
    assert_eq!(date_part_of("2024-01-26 10:00:00+00:00"), "2024-01-26");
    assert_eq!(date_part_of("2024-01-26T10:00:00"), "2024-01-26");
    assert_eq!(date_part_of("  2024-01-26"), "2024-01-26");
    assert_eq!(date_part_of("   "), "   ");
    assert_eq!(date_part_of(""), "");
}

#[test]
fn relative_dates_on_a_day() {
    let today = NaiveDate::from_ymd_opt(2026, 4, 26).unwrap();
    let v = CustomValue::DateTime("2026-01-26 12:00:00+00:00".to_string());
    assert_eq!(relative_date_on(&v, today), "3 months ago (2026-01-26)");
    let y = CustomValue::Text("2026-04-25".to_string());
    assert_eq!(relative_date_on(&y, today), "yesterday (2026-04-25)");
    let bad = CustomValue::Text("soon".to_string());
    assert_eq!(relative_date_on(&bad, today), "today (soon)");
    let now = relative_date(&CustomValue::Text("whenever".to_string()));
    assert_eq!(now, "today (whenever)");
}

#[test]
fn pagination_defaults_and_offsets() {
    assert_eq!(default_page(), 1);
    assert_eq!(default_per_page(), 50);
    assert_eq!(default_view(), "list");
    assert_eq!(page_offset(1, 50), 0);
    assert_eq!(page_offset(3, 20), 40);
    assert_eq!(page_offset(0, 10), -10);
}

#[test]
fn download_plans() {
    let m = book(4, "Title");
    let p = plan_download("/lib", &m, "epub").unwrap();
    assert_eq!(p.file_path, "/lib/Author/Title (4)/Title - Author.epub");
    assert!(p.update_epub);
    assert_eq!(p.mime_type, "application/epub+zip");
    assert_eq!(p.content_disposition, "attachment; filename=\"Title.epub\"");
    let q = plan_download("/lib/", &m, "PdF").unwrap();
    assert_eq!(q.file_path, "/lib/Author/Title (4)/Title - Author.pdf");
    assert!(!q.update_epub);
    assert_eq!(q.mime_type, "application/pdf");
    assert_eq!(q.content_disposition, "attachment; filename=\"Title.pdf\"");
    assert_eq!(plan_download("/lib", &m, "mobi").err().unwrap(), "Format not found");
}

#[test]
fn covers_and_unknown_media_types() {
    assert_eq!(cover_path("/lib", &book(4, "T")), "/lib/Author/Title (4)/cover.jpg");
    let mut m = book(4, "T");
    m.formats[0].format = "XYZQ".to_string();
    let p = plan_download("/lib", &m, "xyzq").unwrap();
    assert_eq!(p.mime_type, "application/octet-stream");
}

#[test]
fn normalized_columns_read_through_link_table() {
    let mut tags = column(7, "tags", "text", false);
    tags.normalized = true;
    tags.is_multiple = true;
    let mut series = column(8, "saga", "series", false);
    series.normalized = true;
    let l = column_lookups(&vec![tags, series, column(9, "pages", "int", false)]);
    assert_eq!(l.len(), 3);
    assert_eq!(
        l[0].query,
        "SELECT custom_column_7.value FROM custom_column_7 JOIN books_custom_column_7_link \
         ON custom_column_7.id = books_custom_column_7_link.value \
         WHERE books_custom_column_7_link.book = ? ORDER BY books_custom_column_7_link.id"
    );
    assert!(l[0].multiple);
    assert_eq!(l[1].query, normalized_value_query(8));
    assert!(!l[1].multiple);
    assert_eq!(l[1].kind, Some(ValueKind::Text));
    assert_eq!(l[2].query, "SELECT value FROM custom_column_9 WHERE book = ?");
}

#[test]
fn multi_values_joined() {
    assert!(multi_value(vec![]).is_none());
    match multi_value(vec!["fiction".to_string(), "scifi".to_string()]) {
        Some(CustomValue::Text(t)) => assert_eq!(t, "fiction, scifi"),
        _ => panic!("expected text"),
    }
    match multi_value(vec!["one".to_string()]) {
        Some(CustomValue::Text(t)) => assert_eq!(t, "one"),
        _ => panic!("expected text"),
    }
}

#[test]
fn whitespace_matches_std() {
    for u in 0u32..0x11_0000 {
        if let Some(c) = char::from_u32(u) {
            assert_eq!(is_whitespace(c), c.is_whitespace(), "{:#x}", u);
        }
    }
}
