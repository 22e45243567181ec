//! The decisions of the web handlers: pagination defaults and offsets, and
//! what a download or a cover request is served from.

use vstd::prelude::*;
use crate::config::{join_path, joined_path};
use crate::db::models::{BookFormat, BookMetadata};
use crate::text::{
    push_str, str_eq, to_lowercase, to_uppercase, unicode_lowercase, unicode_uppercase,
};

verus! {

/// Page shown when none is asked for.
pub fn default_page() -> (r: i64)
    ensures
        r == 1,
{
    1
}

/// Page size used when none is asked for.
pub fn default_per_page() -> (r: i64)
    ensures
        r == 50,
{
    50
}

/// View used when none is asked for.
pub fn default_view() -> (r: String)
    ensures
        r@ == "list"@,
{
    String::from_str("list")
}

/// The number of books before page `page` (pages count from 1):
/// `(page - 1) * per_page`.
pub fn page_offset(page: i64, per_page: i64) -> (r: i64)
    requires
        i64::MIN <= page - 1,
        i64::MIN <= (page - 1) * per_page <= i64::MAX,
    ensures
        r == (page - 1) * per_page,
{
    (page - 1) * per_page
}

/// The media type that `mime_guess` guesses from a path's extension.
pub uninterp spec fn guessed_mime(path: Seq<char>) -> Seq<char>;

/// `mime_guess::from_path(path).first_or_octet_stream().to_string()`: the
/// result is named after the path (the extension table is not restated).
#[verifier::external_body]
pub(crate) fn mime_for_path(path: &str) -> (r: String)
    ensures
        r@ == guessed_mime(path@),
{
    mime_guess::from_path(path).first_or_octet_stream().to_string()
}

/// The index of the first format named exactly `name`.
pub open spec fn first_format_named(formats: Seq<BookFormat>, name: Seq<char>, i: int) -> Option<
    int,
>
    decreases formats.len() - i,
{
    if i < 0 || i >= formats.len() {
        None
    } else if formats[i].format@ == name {
        Some(i)
    } else {
        first_format_named(formats, name, i + 1)
    }
}

/// What a download is served from.
#[derive(Debug)]
pub struct DownloadPlan {
    /// Path of the book file.
    pub file_path: String,
    /// Whether the file is an EPUB whose metadata is updated before sending.
    pub update_epub: bool,
    /// Media type of the response.
    pub mime_type: String,
    /// Value of the `Content-Disposition` header.
    pub content_disposition: String,
}

/// The path of a book's file in `format`: the book's directory in the
/// library, then `NAME.format` (the format in lower case).
pub open spec fn book_file_path(library: Seq<char>, m: BookMetadata, f: BookFormat, format: Seq<
    char,
>) -> Seq<char> {
    joined_path(
        joined_path(library, m.book.path@),
        f.name@ + "."@ + unicode_lowercase(format),
    )
}

/// The plan of a download: the first format named as the requested one in
/// upper case, its file, whether it is an EPUB, the media type guessed from
/// the file and an attachment named after the title.
pub open spec fn download_plan(library: Seq<char>, m: BookMetadata, format: Seq<char>) -> Option<
    (Seq<char>, bool, Seq<char>, Seq<char>),
> {
    match first_format_named(m.formats@, unicode_uppercase(format), 0) {
        None => None,
        Some(i) => {
            let path = book_file_path(library, m, m.formats@[i], format);
            Some(
                (
                    path,
                    unicode_uppercase(format) == "EPUB"@,
                    guessed_mime(path),
                    "attachment; filename=\""@ + m.book.title@ + "."@ + unicode_lowercase(format)
                        + "\""@,
                ),
            )
        },
    }
}

/// Plans the download of a book in `format`; `Err` holds the not-found
/// message when the book has no such format.
pub fn plan_download(library_path: &str, meta: &BookMetadata, format: &str) -> (r: Result<
    DownloadPlan,
    String,
>)
    ensures
        match r {
            Ok(p) => download_plan(library_path@, *meta, format@) == Some(
                (p.file_path@, p.update_epub, p.mime_type@, p.content_disposition@),
            ),
            Err(msg) => download_plan(library_path@, *meta, format@) is None && msg@
                == "Format not found"@,
        },
{
    let upper = to_uppercase(format);
    let lower = to_lowercase(format);
    let mut i: usize = 0;
    while i < meta.formats.len()
        invariant
            i <= meta.formats.len(),
            upper@ == unicode_uppercase(format@),
            first_format_named(meta.formats@, upper@, 0) == first_format_named(
                meta.formats@,
                upper@,
                i as int,
            ),
        ensures
            i <= meta.formats.len(),
            first_format_named(meta.formats@, upper@, 0) == first_format_named(
                meta.formats@,
                upper@,
                i as int,
            ),
            i < meta.formats.len() ==> meta.formats@[i as int].format@ == upper@,
        decreases meta.formats.len() - i,
    {
        if str_eq(meta.formats[i].format.as_str(), upper.as_str()) {
            break;
        }
        i = i + 1;
    }
    if i == meta.formats.len() {
        return Err(String::from_str("Format not found"));
    }
    let f = &meta.formats[i];
    let dir = join_path(library_path, meta.book.path.as_str());
    let mut file_name = f.name.clone();
    push_str(&mut file_name, ".");
    push_str(&mut file_name, lower.as_str());
    let file_path = join_path(dir.as_str(), file_name.as_str());
    let update_epub = str_eq(upper.as_str(), "EPUB");
    let mime_type = mime_for_path(file_path.as_str());
    let mut disposition = String::from_str("attachment; filename=\"");
    push_str(&mut disposition, meta.book.title.as_str());
    push_str(&mut disposition, ".");
    push_str(&mut disposition, lower.as_str());
    push_str(&mut disposition, "\"");
    assert(disposition@ =~= "attachment; filename=\""@ + meta.book.title@ + "."@ + unicode_lowercase(
        format@,
    ) + "\""@);
    Ok(DownloadPlan { file_path, update_epub, mime_type, content_disposition: disposition })
}

/// The path of a book's cover: `cover.jpg` in the book's directory.
pub fn cover_path(library_path: &str, meta: &BookMetadata) -> (r: String)
    ensures
        r@ == joined_path(joined_path(library_path@, meta.book.path@), "cover.jpg"@),
{
    let dir = join_path(library_path, meta.book.path.as_str());
    join_path(dir.as_str(), "cover.jpg")
}

} // verus!
