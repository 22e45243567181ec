use calibre_server::epub::{
    escape_xml, is_opf_name, opf_update_would_fail, rewrite_entry, update_epub_metadata,
    update_opf_metadata,
};
use calibre_server::db::models::{Author, Book, BookMetadata, CustomColumns};
use std::io::{Cursor, Read, Write};

fn meta(title: &str, authors: &[&str]) -> BookMetadata {
    BookMetadata {
        book: Book {
            id: 1,
            title: title.to_string(),
            sort: None,
            timestamp: None,
            pubdate: None,
            series_index: None,
            author_sort: None,
            path: "A/B (1)".to_string(),
            uuid: None,
            has_cover: None,
            last_modified: None,
        },
        authors: authors
            .iter()
            .enumerate()
            .map(|(i, a)| Author { id: i as i64, name: a.to_string(), sort: None, link: None })
            .collect(),
        formats: vec![],
        custom_columns: CustomColumns::new(),
        series_name: None,
        series_index: None,
        tags: vec![],
        publisher: None,
        comment: None,
    }
}

const OPF: &str = "<package><metadata><dc:title>Old</dc:title><dc:creator opf:role=\"aut\">Someone</dc:creator></metadata></package>";

fn zip_of(files: &[(&str, &[u8])]) -> Vec<u8> {
    let mut w = zip::ZipWriter::new(Cursor::new(Vec::new()));
    for (name, data) in files {
        w.start_file(*name, zip::write::SimpleFileOptions::default()).unwrap();
        w.write_all(data).unwrap();
    }
    w.finish().unwrap().into_inner()
}

fn read_zip(bytes: Vec<u8>) -> Vec<(String, Vec<u8>)> {
    let mut a = zip::ZipArchive::new(Cursor::new(bytes)).unwrap();
    let mut out = Vec::new();
    for i in 0..a.len() {
        let mut f = a.by_index(i).unwrap();
        let name = f.name().to_string();
        let mut data = Vec::new();
        f.read_to_end(&mut data).unwrap();
        out.push((name, data));
    }
    out
}

#[test]
fn xml_escaping_of_metadata() {
    assert_eq!(escape_xml("Tom & \"Jerry\" <'s>"), "Tom &amp; &quot;Jerry&quot; &lt;&apos;s&gt;");
    assert_eq!(escape_xml("plain text"), "plain text");
    // The same text as the chain of replacements, `&` first.
    let s = "a&b<c>d\"e'f";
    let chained = s
        .replace('&', "&amp;")
        .replace('<', "&lt;")
        .replace('>', "&gt;")
        .replace('"', "&quot;")
        .replace('\'', "&apos;");
    assert_eq!(escape_xml(s), chained);
}

#[test]
fn opf_title_and_creator_updated() {
    let out = update_opf_metadata(OPF, &meta("New & Improved", &["Ann", "Bob"])).unwrap();
    assert_eq!(
        out,
        "<package><metadata><dc:title>New &amp; Improved</dc:title><dc:creator opf:role=\"aut\">Ann</dc:creator></metadata></package>"
    );
}

#[test]
fn opf_without_authors_keeps_creator() {
    let out = update_opf_metadata(OPF, &meta("T", &[])).unwrap();
    assert_eq!(
        out,
        "<package><metadata><dc:title>T</dc:title><dc:creator opf:role=\"aut\">Someone</dc:creator></metadata></package>"
    );
}

#[test]
fn opf_without_elements_unchanged() {
    let doc = "<package><metadata/></package>";
    assert_eq!(update_opf_metadata(doc, &meta("T", &["A"])).unwrap(), doc);
    // An opening tag without a closing one is left alone too.
    let open_only = "<dc:title>x";
    assert_eq!(update_opf_metadata(open_only, &meta("T", &[])).unwrap(), open_only);
}

#[test]
fn title_reads_back_after_update() {
    let once = update_opf_metadata(OPF, &meta("X<Y", &[])).unwrap();
    let twice = update_opf_metadata(&once, &meta("X<Y", &[])).unwrap();
    assert_eq!(once, twice);
    let start = once.find("<dc:title>").unwrap() + 10;
    let end = once[start..].find("</dc:title>").unwrap() + start;
    assert_eq!(&once[start..end], "X&lt;Y");
}

#[test]
fn creator_without_tag_end_is_refused() {
    let bad = "<dc:creator</dc:creator>";
    assert!(opf_update_would_fail(bad, &meta("T", &["A"])));
    assert!(!opf_update_would_fail(bad, &meta("T", &[])));
    assert!(!opf_update_would_fail(OPF, &meta("T", &["A"])));
    assert!(rewrite_entry("content.opf", bad.as_bytes().to_vec(), &meta("T", &["A"])).is_err());
}

#[test]
fn opf_entry_names() {
    assert!(is_opf_name("OEBPS/content.opf"));
    assert!(is_opf_name("book.opf"));
    assert!(is_opf_name("content.opf.bak"));
    assert!(!is_opf_name("opf"));
    assert!(!is_opf_name("chapter1.xhtml"));
}

#[test]
fn entries_rewritten_or_kept() {
    let m = meta("New", &["Ann"]);
    let kept = rewrite_entry("images/cover.jpg", vec![0xff, 0xd8, 0x00], &m).unwrap();
    assert_eq!(kept, vec![0xff, 0xd8, 0x00]);
    let opf = rewrite_entry("OEBPS/content.opf", OPF.as_bytes().to_vec(), &m).unwrap();
    assert_eq!(
        String::from_utf8(opf).unwrap(),
        "<package><metadata><dc:title>New</dc:title><dc:creator opf:role=\"aut\">Ann</dc:creator></metadata></package>"
    );
    assert!(rewrite_entry("content.opf", vec![0xff, 0xfe], &m).is_err());
}

#[test]
fn epub_archive_rewritten() {
    let epub = zip_of(&[
        ("mimetype", b"application/epub+zip"),
        ("OEBPS/content.opf", OPF.as_bytes()),
        ("OEBPS/ch1.xhtml", b"<html>hi</html>"),
    ]);
    let out = update_epub_metadata(epub, &meta("Fresh", &["Zed"])).unwrap();
    let files = read_zip(out);
    assert_eq!(files.len(), 3);
    assert_eq!(files[0], ("mimetype".to_string(), b"application/epub+zip".to_vec()));
    assert_eq!(files[1].0, "OEBPS/content.opf");
    assert_eq!(
        String::from_utf8(files[1].1.clone()).unwrap(),
        "<package><metadata><dc:title>Fresh</dc:title><dc:creator opf:role=\"aut\">Zed</dc:creator></metadata></package>"
    );
    assert_eq!(files[2], ("OEBPS/ch1.xhtml".to_string(), b"<html>hi</html>".to_vec()));
}

#[test]
fn epub_rewrite_is_deterministic() {
    let epub = zip_of(&[("content.opf", OPF.as_bytes())]);
    let a = update_epub_metadata(epub.clone(), &meta("T", &[])).unwrap();
    let b = update_epub_metadata(epub, &meta("T", &[])).unwrap();
    assert_eq!(a, b);
}

#[test]
fn not_an_archive() {
    assert!(update_epub_metadata(b"not a zip".to_vec(), &meta("T", &[])).is_err());
}

#[test]
fn not_an_archive_reports_zip_error() {
    let expected = zip::ZipArchive::new(Cursor::new(b"not a zip".to_vec())).unwrap_err().to_string();
    let err = update_epub_metadata(b"not a zip".to_vec(), &meta("T", &[])).unwrap_err();
    assert_eq!(err, expected);
}

#[test]
fn opf_not_utf8_reports_error() {
    let epub = zip_of(&[("mimetype", b"application/epub+zip"), ("content.opf", &[0xff, 0xfe])]);
    let err = update_epub_metadata(epub, &meta("T", &["A"])).unwrap_err();
    assert_eq!(err, "stream did not contain valid UTF-8");
    let err = rewrite_entry("content.opf", vec![0xff], &meta("T", &[])).unwrap_err();
    assert_eq!(err, "stream did not contain valid UTF-8");
}

#[test]
fn opf_update_twice_changes_nothing() {
    let m = meta("A & B <x>", &["O'Neil \"Q\""]);
    let once = update_opf_metadata(OPF, &m).unwrap();
    let twice = update_opf_metadata(&once, &m).unwrap();
    assert_eq!(once, twice);
    assert_eq!(
        once,
        "<package><metadata><dc:title>A &amp; B &lt;x&gt;</dc:title><dc:creator opf:role=\"aut\">O&apos;Neil &quot;Q&quot;</dc:creator></metadata></package>"
    );
}

#[test]
fn epub_update_twice_reads_back_the_same() {
    let epub = zip_of(&[("mimetype", b"application/epub+zip"), ("OEBPS/content.opf", OPF.as_bytes())]);
    let m = meta("Fresh", &["Zed"]);
    let once = update_epub_metadata(epub, &m).unwrap();
    let twice = update_epub_metadata(once.clone(), &m).unwrap();
    assert_eq!(read_zip(once), read_zip(twice));
}

#[test]
fn opf_update_with_title_inside_creator_is_not_idempotent() {
    let m = meta("T", &["A"]);
    let s = "<dc:creator><dc:title></dc:title></dc:creator><dc:title>z</dc:title>";
    let once = update_opf_metadata(s, &m).unwrap();
    assert_eq!(once, "<dc:creator>A</dc:creator><dc:title>z</dc:title>");
    let twice = update_opf_metadata(&once, &m).unwrap();
    assert_eq!(twice, "<dc:creator>A</dc:creator><dc:title>T</dc:title>");
}

#[test]
fn opf_update_with_title_after_creator_is_idempotent() {
    let m = meta("T", &["A"]);
    let s = "<dc:creator x=\"1\">old</dc:creator><dc:title>z</dc:title>";
    let once = update_opf_metadata(s, &m).unwrap();
    assert_eq!(once, "<dc:creator x=\"1\">A</dc:creator><dc:title>T</dc:title>");
    assert_eq!(update_opf_metadata(&once, &m).unwrap(), once);
}

#[test]
fn entry_read_error_after_start_for_plain_files() {
    // A stored entry whose data is cut short cannot be read; the copy stops
    // with zip's read error.
    let mut w = zip::ZipWriter::new(Cursor::new(Vec::new()));
    let opts = zip::write::SimpleFileOptions::default()
        .compression_method(zip::CompressionMethod::Deflated);
    w.start_file("a.txt", opts).unwrap();
    w.write_all(&[7u8; 4096]).unwrap();
    let mut bytes = w.finish().unwrap().into_inner();
    // Corrupt the compressed data (after the 30-byte local header and name).
    for b in bytes.iter_mut().skip(40).take(8) {
        *b ^= 0xff;
    }
    let mut a = zip::ZipArchive::new(Cursor::new(bytes.clone())).unwrap();
    let expected = {
        let mut f = a.by_index(0).unwrap();
        let mut data = Vec::new();
        f.read_to_end(&mut data).unwrap_err().to_string()
    };
    assert_eq!(update_epub_metadata(bytes, &meta("T", &[])).unwrap_err(), expected);
}
