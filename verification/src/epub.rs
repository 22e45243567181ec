//! Rewriting the metadata of an EPUB (its OPF package document) with the
//! information held in the library database.

use vstd::prelude::*;
use crate::db::models::BookMetadata;
use crate::text::{
    chars_of, ends_with, find_chars, find_from, lemma_find_from, occurs_at, push_char, push_str,
    slice_chars, string_of_chars,
};
use crate::xml::xml_escaped;
use std::io::Cursor;
use vstd::utf8::{decode_utf8, encode_utf8, valid_utf8};
use zip::write::SimpleFileOptions;
use zip::{ZipArchive, ZipWriter};

verus! {

#[verifier::external_type_specification]
#[verifier::external_body]
#[verifier::reject_recursive_types(T)]
pub struct ExCursor<T>(std::io::Cursor<T>);

#[verifier::external_type_specification]
#[verifier::external_body]
#[verifier::reject_recursive_types(R)]
pub struct ExZipArchive<R>(zip::ZipArchive<R>);

/// An archive being written in memory: a `zip::ZipWriter` over a cursor,
/// held opaquely and known through `written_files`.
#[verifier::external_body]
pub struct ZipOutput {
    writer: ZipWriter<Cursor<Vec<u8>>>,
}

/// Escapes XML special characters: `&`, `<`, `>`, `"` and `'` become
/// `&amp;`, `&lt;`, `&gt;`, `&quot;` and `&apos;`.
/// Each character is looked at once and replaced by its entity, so an
/// entity written for one character is never escaped again.
pub fn escape_xml(text: &str) -> (r: String)
    ensures
        r@ == xml_escaped(text@),
{
    let cs = chars_of(text);
    let mut out = String::new();
    let mut i: usize = 0;
    while i < cs.len()
        invariant
            i <= cs.len(),
            cs@ == text@,
            out@ == xml_escaped(cs@.take(i as int)),
        decreases cs.len() - i,
    {
        let c = cs[i];
        if c == '<' {
            push_str(&mut out, "&lt;");
        } else if c == '>' {
            push_str(&mut out, "&gt;");
        } else if c == '&' {
            push_str(&mut out, "&amp;");
        } else if c == '\'' {
            push_str(&mut out, "&apos;");
        } else if c == '"' {
            push_str(&mut out, "&quot;");
        } else {
            push_char(&mut out, c);
            assert(seq![c] =~= Seq::<char>::empty().push(c));
        }
        assert(cs@.take(i + 1).drop_last() =~= cs@.take(i as int));
        assert(out@ =~= xml_escaped(cs@.take(i + 1)));
        i = i + 1;
    }
    assert(cs@.take(cs.len() as int) =~= cs@);
    out
}

/// `s` with the text of its first `<dc:title>` element replaced by `title`
/// (already escaped); unchanged when there is no such element.
pub open spec fn with_title(s: Seq<char>, title: Seq<char>) -> Seq<char> {
    match find_from(s, "<dc:title>"@, 0) {
        None => s,
        Some(start) => match find_from(s, "</dc:title>"@, start) {
            None => s,
            Some(end) => s.subrange(0, start) + "<dc:title>"@ + title + "</dc:title>"@
                + s.subrange(end + 11, s.len() as int),
        },
    }
}

/// The text of the first `dc:title` element, when there is one.
pub open spec fn opf_title(s: Seq<char>) -> Option<Seq<char>> {
    match find_from(s, "<dc:title>"@, 0) {
        None => None,
        Some(start) => match find_from(s, "</dc:title>"@, start) {
            None => None,
            Some(end) => Some(s.subrange(start + 10, end)),
        },
    }
}

/// Reading the title back after setting it gives what was set: once a
/// document with a `dc:title` element has its title replaced by a text
/// without `<`, its first `dc:title` element holds exactly that text, and
/// setting the same title again changes nothing.
pub proof fn lemma_title_read_back(s: Seq<char>, t: Seq<char>)
    requires
        opf_title(s) is Some,
        forall|i: int| 0 <= i < t.len() ==> #[trigger] t[i] != '<',
    ensures
        opf_title(with_title(s, t)) == Some(t),
        with_title(with_title(s, t), t) == with_title(s, t),
{
    reveal_strlit("<dc:title>");
    reveal_strlit("</dc:title>");
    let o = "<dc:title>"@;
    let c = "</dc:title>"@;
    let start = find_from(s, o, 0).unwrap();
    let end = find_from(s, c, start).unwrap();
    lemma_find_from(s, o, 0);
    lemma_find_from(s, c, start);
    let r = with_title(s, t);
    assert(r == s.subrange(0, start) + o + t + c + s.subrange(end + 11, s.len() as int));
    assert(r.subrange(0, start + 10) =~= s.subrange(0, start + 10));
    // The opening tag is found where it was.
    assert forall|j: int| 0 <= j < start implies !occurs_at(r, o, j) by {
        assert(!occurs_at(s, o, j));
        assert forall|x: int| 0 <= x < 10 implies #[trigger] r.subrange(j, j + 10)[x] == s.subrange(
            j,
            j + 10,
        )[x] by {
            assert(r.subrange(0, start + 10)[j + x] == s.subrange(0, start + 10)[j + x]);
        }
        assert(r.subrange(j, j + 10) =~= s.subrange(j, j + 10));
    }
    assert(r.subrange(start, start + 10) =~= o);
    crate::text::lemma_find_from_is(r, o, 0, start);
    // The closing tag is found right after the new text.
    let k = start + 10 + t.len();
    assert forall|j: int| start <= j < k implies !occurs_at(r, c, j) by {
        if occurs_at(r, c, j) {
            assert(r.subrange(j, j + 11)[0] == r[j]);
            if j < start + 10 {
                assert(r[j] == o[j - start]);
                if j == start {
                    assert(r.subrange(j, j + 11)[1] == r[j + 1]);
                    assert(r[j + 1] == o[1]);
                }
            } else {
                assert(r[j] == t[j - start - 10]);
            }
        }
    }
    assert(r.subrange(k, k + 11) =~= c);
    crate::text::lemma_find_from_is(r, c, start, k);
    assert(r.subrange(start + 10, k) =~= t);
    assert(r.subrange(0, start) =~= s.subrange(0, start));
    assert(r.subrange(k + 11, r.len() as int) =~= s.subrange(end + 11, s.len() as int));
    assert(with_title(r, t) =~= r);
}

/// For a book without authors, the updated OPF document's title reads back
/// as the book's title, escaped.
pub proof fn lemma_updated_title(s: Seq<char>, m: BookMetadata)
    requires
        opf_title(s) is Some,
        m.authors@.len() == 0,
    ensures
        opf_title(updated_opf(s, m)) == Some(xml_escaped(m.book.title@)),
{
    crate::xml::lemma_escaped_is_plain(m.book.title@);
    let t = xml_escaped(m.book.title@);
    assert forall|i: int| 0 <= i < t.len() implies #[trigger] t[i] != '<' by {}
    lemma_title_read_back(s, t);
}

/// Where the text of the first `<dc:creator ...>` element starts (after the
/// first `>` that follows the tag's start) and where it ends, when the
/// element is there.
pub open spec fn creator_span(s: Seq<char>) -> Option<(int, int)> {
    match find_from(s, "<dc:creator"@, 0) {
        None => None,
        Some(start) => match find_from(s, "</dc:creator>"@, start) {
            None => None,
            Some(end) => match find_from(s, ">"@, start) {
                None => None,
                Some(gt) => Some((gt + 1, end)),
            },
        },
    }
}

/// `s` with the text of its first `dc:creator` element replaced by `name`
/// (already escaped).
pub open spec fn with_creator(s: Seq<char>, name: Seq<char>) -> Seq<char> {
    match creator_span(s) {
        None => s,
        Some((from, to)) => s.subrange(0, from) + name + s.subrange(to, s.len() as int),
    }
}

/// The text of the first `dc:creator` element, when there is one.
pub open spec fn opf_creator(s: Seq<char>) -> Option<Seq<char>> {
    match creator_span(s) {
        Some((from, to)) => if from <= to {
            Some(s.subrange(from, to))
        } else {
            None
        },
        None => None,
    }
}

/// Reading the creator back after setting it gives what was set: once the
/// text of a document's first `dc:creator` element is replaced by a text
/// without `<` or `>`, the element holds exactly that text, and setting the
/// same creator again changes nothing.
pub proof fn lemma_creator_read_back(s: Seq<char>, a: Seq<char>)
    requires
        opf_creator(s) is Some,
        forall|i: int| 0 <= i < a.len() ==> #[trigger] a[i] != '<' && a[i] != '>',
    ensures
        opf_creator(with_creator(s, a)) == Some(a),
        with_creator(with_creator(s, a), a) == with_creator(s, a),
{
    reveal_strlit("<dc:creator");
    reveal_strlit("</dc:creator>");
    reveal_strlit(">");
    let o = "<dc:creator"@;
    let c = "</dc:creator>"@;
    let g = ">"@;
    let start = find_from(s, o, 0).unwrap();
    let end = find_from(s, c, start).unwrap();
    let gt = find_from(s, g, start).unwrap();
    lemma_find_from(s, o, 0);
    lemma_find_from(s, c, start);
    lemma_find_from(s, g, start);
    let from = gt + 1;
    assert(from <= end);
    let r = with_creator(s, a);
    assert(r == s.subrange(0, from) + a + s.subrange(end, s.len() as int));
    let k = from + a.len();
    // The start tag is found where it was.
    assert(s.subrange(start, start + 11)[0] == s[start]);
    assert(gt > start) by {
        if gt == start {
            assert(s.subrange(gt, gt + 1)[0] == s[gt]);
        }
    }
    assert(gt >= start + 11) by {
        if gt < start + 11 {
            assert(s.subrange(gt, gt + 1)[0] == s[gt]);
            assert(s.subrange(start, start + 11)[gt - start] == s[gt]);
        }
    }
    assert forall|j: int| 0 <= j < start implies !occurs_at(r, o, j) by {
        assert(!occurs_at(s, o, j));
        assert forall|x: int| 0 <= x < 11 implies #[trigger] r.subrange(j, j + 11)[x] == s.subrange(
            j,
            j + 11,
        )[x] by {
            assert(r[j + x] == s[j + x]);
        }
        assert(r.subrange(j, j + 11) =~= s.subrange(j, j + 11));
    }
    assert(r.subrange(start, start + 11) =~= s.subrange(start, start + 11));
    crate::text::lemma_find_from_is(r, o, 0, start);
    // The first `>` after it is where it was.
    assert forall|j: int| start <= j < gt implies !occurs_at(r, g, j) by {
        assert(!occurs_at(s, g, j));
        assert(r.subrange(j, j + 1) =~= s.subrange(j, j + 1));
    }
    assert(r.subrange(gt, gt + 1) =~= s.subrange(gt, gt + 1));
    crate::text::lemma_find_from_is(r, g, start, gt);
    // The end tag is found right after the new text.
    assert forall|j: int| start <= j < k implies !occurs_at(r, c, j) by {
        if occurs_at(r, c, j) {
            assert(r.subrange(j, j + 13)[0] == r[j]);
            assert(r.subrange(j, j + 13)[12] == r[j + 12]);
            if j < from {
                assert(r[j] == s[j]);
                if j + 12 < from {
                    assert forall|x: int| 0 <= x < 13 implies #[trigger] s.subrange(j, j + 13)[x]
                        == c[x] by {
                        assert(r.subrange(j, j + 13)[x] == r[j + x]);
                        assert(r[j + x] == s[j + x]);
                    }
                    assert(s.subrange(j, j + 13) =~= c);
                    assert(occurs_at(s, c, j));
                } else if j + 12 < k {
                    assert(r[j + 12] == a[j + 12 - from]);
                } else {
                    // The `<` of the end tag would sit at `j`, before `k`.
                    assert(r[k] == s[end]);
                    assert(s.subrange(end, end + 13)[0] == s[end]);
                    assert(r.subrange(j, j + 13)[k - j] == r[k]);
                }
            } else {
                assert(r[j] == a[j - from]);
            }
        }
    }
    assert(r.subrange(k, k + 13) =~= s.subrange(end, end + 13));
    crate::text::lemma_find_from_is(r, c, start, k);
    assert(r.subrange(from, k) =~= a);
    assert(r.subrange(0, from) =~= s.subrange(0, from));
    assert(r.subrange(k, r.len() as int) =~= s.subrange(end, s.len() as int));
    assert(with_creator(r, a) =~= r);
}

/// The OPF document after the update: title set to the book's title, and,
/// when the book has authors, the first creator set to the first author.
pub open spec fn updated_opf(s: Seq<char>, m: BookMetadata) -> Seq<char> {
    let titled = with_title(s, xml_escaped(m.book.title@));
    if m.authors@.len() == 0 {
        titled
    } else {
        with_creator(titled, xml_escaped(m.authors@[0].name@))
    }
}

/// For a book with authors, the updated OPF document's first creator reads
/// back as the first author, escaped (when the document, once titled, has a
/// `dc:creator` element).
pub proof fn lemma_updated_creator(s: Seq<char>, m: BookMetadata)
    requires
        m.authors@.len() > 0,
        opf_creator(with_title(s, xml_escaped(m.book.title@))) is Some,
    ensures
        opf_creator(updated_opf(s, m)) == Some(xml_escaped(m.authors@[0].name@)),
{
    crate::xml::lemma_escaped_is_plain(m.authors@[0].name@);
    let a = xml_escaped(m.authors@[0].name@);
    assert forall|i: int| 0 <= i < a.len() implies #[trigger] a[i] != '<' && a[i] != '>' by {}
    lemma_creator_read_back(with_title(s, xml_escaped(m.book.title@)), a);
}

/// Whether the first `dc:title` element of `x` lies clear of its first
/// `dc:creator` element: it ends before the `<dc:creator` tag begins, or
/// begins at or after the creator's closing tag, or one of the two
/// elements is missing.
pub open spec fn title_clear_of_creator(x: Seq<char>) -> bool {
    match creator_span(x) {
        None => true,
        Some((from, to)) => match find_from(x, "<dc:title>"@, 0) {
            None => true,
            Some(start) => match find_from(x, "</dc:title>"@, start) {
                None => true,
                Some(end) => end + 11 <= find_from(x, "<dc:creator"@, 0).unwrap() || start >= to,
            },
        },
    }
}

/// A tag pattern: it begins with `<` and has no `>` but at its end.
pub open spec fn tag_pattern(p: Seq<char>) -> bool {
    &&& p.len() >= 1
    &&& p[0] == '<'
    &&& forall|k: int| 0 <= k < p.len() - 1 ==> #[trigger] p[k] != '>'
}

/// Where a tag pattern occurs in a text whose part `from..to` was replaced
/// by `n`: entirely before the replaced part, where it occurred already,
/// or after it, where it occurred after the old part. (The text has `>` just
/// before the replaced part, and `n` has neither `<` nor `>`.)
proof fn lemma_splice_occurs(x: Seq<char>, n: Seq<char>, from: int, to: int, p: Seq<char>, j: int)
    requires
        1 <= from <= to <= x.len(),
        x[from - 1] == '>',
        forall|k: int| 0 <= k < n.len() ==> #[trigger] n[k] != '<' && n[k] != '>',
        tag_pattern(p),
        occurs_at(x.subrange(0, from) + n + x.subrange(to, x.len() as int), p, j),
    ensures
        (j + p.len() <= from && occurs_at(x, p, j)) || (j >= from + n.len() && occurs_at(
            x,
            p,
            j + (to - from - n.len()),
        )),
{
    let r = x.subrange(0, from) + n + x.subrange(to, x.len() as int);
    let d = to - from - n.len();
    assert(r.subrange(j, j + p.len())[0] == r[j]);
    if j < from {
        if j + p.len() > from {
            let k = from - 1 - j;
            assert(r.subrange(j, j + p.len())[k] == r[from - 1]);
            assert(r[from - 1] == x[from - 1]);
            assert(p[k] != '>');
        }
        assert forall|k: int| 0 <= k < p.len() implies #[trigger] x.subrange(j, j + p.len())[k]
            == p[k] by {
            assert(r.subrange(j, j + p.len())[k] == r[j + k]);
            assert(r[j + k] == x[j + k]);
        }
        assert(x.subrange(j, j + p.len()) =~= p);
    } else if j < from + n.len() {
        assert(r[j] == n[j - from]);
    } else {
        assert forall|k: int| 0 <= k < p.len() implies #[trigger] x.subrange(j + d, j + d + p.len())[k]
            == p[k] by {
            assert(r.subrange(j, j + p.len())[k] == r[j + k]);
            assert(r[j + k] == x[j + k + d]);
        }
        assert(x.subrange(j + d, j + d + p.len()) =~= p);
    }
}

/// The title tags are tag patterns.
proof fn lemma_title_tags()
    ensures
        tag_pattern("<dc:title>"@),
        tag_pattern("</dc:title>"@),
{
    reveal_strlit("<dc:title>");
    reveal_strlit("</dc:title>");
}

/// The facts about a document's creator element that a rewrite of its
/// text rests on: the text begins just after a `>` that follows the start
/// tag, and ends where the closing tag begins.
proof fn lemma_creator_span_facts(x: Seq<char>)
    requires
        creator_span(x) is Some,
    ensures
        ({
            let (from, to) = creator_span(x).unwrap();
            let cstart = find_from(x, "<dc:creator"@, 0).unwrap();
            &&& 1 <= from
            &&& cstart < from
            &&& from <= x.len()
            &&& x[from - 1] == '>'
            &&& occurs_at(x, "</dc:creator>"@, to)
            &&& to >= cstart
        }),
{
    reveal_strlit("<dc:creator");
    reveal_strlit("</dc:creator>");
    reveal_strlit(">");
    let cstart = find_from(x, "<dc:creator"@, 0).unwrap();
    lemma_find_from(x, "<dc:creator"@, 0);
    lemma_find_from(x, "</dc:creator>"@, cstart);
    lemma_find_from(x, ">"@, cstart);
    let gt = find_from(x, ">"@, cstart).unwrap();
    assert(x.subrange(gt, gt + 1)[0] == x[gt]);
    assert(x.subrange(cstart, cstart + 11)[0] == x[cstart]);
}

/// A document without a title element gets none when its creator's text is
/// replaced by `n`.
proof fn lemma_no_title_after_splice(x: Seq<char>, n: Seq<char>)
    requires
        creator_span(x) matches Some((from, to)) && from <= to,
        opf_title(x) is None,
        forall|k: int| 0 <= k < n.len() ==> #[trigger] n[k] != '<' && n[k] != '>',
    ensures
        opf_title(with_creator(x, n)) is None,
{
    lemma_title_tags();
    lemma_creator_span_facts(x);
    let (from, to) = creator_span(x).unwrap();
    let r = with_creator(x, n);
    let o = "<dc:title>"@;
    let c = "</dc:title>"@;
    let d = to - from - n.len();
    if let Some(j) = find_from(r, o, 0) {
        lemma_find_from(r, o, 0);
        lemma_splice_occurs(x, n, from, to, o, j);
        let jx = if j + o.len() <= from { j } else { j + d };
        lemma_find_from(x, o, 0);
        let st = find_from(x, o, 0).unwrap();
        lemma_find_from(x, c, st);
        if let Some(k) = find_from(r, c, j) {
            lemma_find_from(r, c, j);
            lemma_splice_occurs(x, n, from, to, c, k);
            let kx = if k + c.len() <= from { k } else { k + d };
            assert(kx >= jx);
            assert(occurs_at(x, c, kx));
        }
    }
}

/// A title element that begins at or after the creator's closing tag is
/// found again, shifted, once the creator's text is replaced by `n`; a
/// title already set to `t` is then left as it is.
proof fn lemma_title_after_splice(x: Seq<char>, n: Seq<char>, t: Seq<char>)
    requires
        creator_span(x) matches Some((from, to)) && from <= to,
        find_from(x, "<dc:title>"@, 0) matches Some(st) && st >= creator_span(x).unwrap().1,
        opf_title(x) == Some(t),
        with_title(x, t) == x,
        forall|k: int| 0 <= k < n.len() ==> #[trigger] n[k] != '<' && n[k] != '>',
    ensures
        with_title(with_creator(x, n), t) == with_creator(x, n),
{
    lemma_title_tags();
    lemma_creator_span_facts(x);
    let (from, to) = creator_span(x).unwrap();
    let r = with_creator(x, n);
    let o = "<dc:title>"@;
    let c = "</dc:title>"@;
    let d = to - from - n.len();
    reveal_strlit("<dc:title>");
    reveal_strlit("</dc:title>");
    let st = find_from(x, o, 0).unwrap();
    let e = find_from(x, c, st).unwrap();
    lemma_find_from(x, o, 0);
    lemma_find_from(x, c, st);
    assert(r == x.subrange(0, from) + n + x.subrange(to, x.len() as int));
    // The shifted title start tag is the first in `r`.
    assert forall|j: int| 0 <= j < st - d implies !occurs_at(r, o, j) by {
        if occurs_at(r, o, j) {
            lemma_splice_occurs(x, n, from, to, o, j);
        }
    }
    assert forall|k: int| 0 <= k < 10 implies #[trigger] r.subrange(st - d, st - d + 10)[k] == o[k] by {
        assert(r[st - d + k] == x[st + k]);
        assert(x.subrange(st, st + 10)[k] == x[st + k]);
    }
    assert(r.subrange(st - d, st - d + 10) =~= o);
    crate::text::lemma_find_from_is(r, o, 0, st - d);
    // So is the shifted closing tag after it.
    assert forall|j: int| st - d <= j < e - d implies !occurs_at(r, c, j) by {
        if occurs_at(r, c, j) {
            lemma_splice_occurs(x, n, from, to, c, j);
        }
    }
    assert forall|k: int| 0 <= k < 11 implies #[trigger] r.subrange(e - d, e - d + 11)[k] == c[k] by {
        assert(r[e - d + k] == x[e + k]);
        assert(x.subrange(e, e + 11)[k] == x[e + k]);
    }
    assert(r.subrange(e - d, e - d + 11) =~= c);
    crate::text::lemma_find_from_is(r, c, st - d, e - d);
    // The element there already holds `t`.
    assert(x.subrange(st + 10, e) == t);
    assert(with_title(r, t) =~= r) by {
        assert forall|k: int| st - d <= k < e - d + 11 implies #[trigger] with_title(r, t)[k] == r[k] by {
            assert(r[k] == x[k + d]);
            if k < st - d + 10 {
                assert(with_title(r, t)[k] == o[k - (st - d)]);
                assert(x.subrange(st, st + 10)[k - (st - d)] == x[k + d]);
            } else if k < e - d {
                assert(with_title(r, t)[k] == t[k - (st - d) - 10]);
                assert(x.subrange(st + 10, e)[k - (st - d) - 10] == x[k + d]);
            } else {
                assert(with_title(r, t)[k] == c[k - (e - d)]);
                assert(x.subrange(e, e + 11)[k - (e - d)] == x[k + d]);
            }
        }
    }
}

/// A title element that ends before the creator's start tag is found where
/// it was once the creator's text is replaced by `n`; a title already set
/// to `t` is then left as it is.
proof fn lemma_title_before_splice(x: Seq<char>, n: Seq<char>, t: Seq<char>)
    requires
        creator_span(x) matches Some((from, to)) && from <= to,
        find_from(x, "<dc:title>"@, 0) matches Some(st) && find_from(x, "</dc:title>"@, st) matches Some(
            e,
        ) && e + 11 <= find_from(x, "<dc:creator"@, 0).unwrap(),
        opf_title(x) == Some(t),
        with_title(x, t) == x,
    ensures
        with_title(with_creator(x, n), t) == with_creator(x, n),
{
    lemma_creator_span_facts(x);
    let (from, to) = creator_span(x).unwrap();
    let r = with_creator(x, n);
    let start = find_from(x, "<dc:title>"@, 0).unwrap();
    let end = find_from(x, "</dc:title>"@, start).unwrap();
    reveal_strlit("<dc:title>");
    reveal_strlit("</dc:title>");
    assert(r.subrange(0, from) =~= x.subrange(0, from));
    lemma_find_from(x, "<dc:title>"@, 0);
    lemma_find_from(x, "</dc:title>"@, start);
    crate::text::lemma_find_from_agree(x, r, "<dc:title>"@, 0, from);
    crate::text::lemma_find_from_agree(x, r, "</dc:title>"@, start, from);
    assert(with_title(r, t) =~= r) by {
        assert(x.subrange(0, start) + "<dc:title>"@ + t + "</dc:title>"@ + x.subrange(
            end + 11,
            x.len() as int,
        ) == x);
        assert(x.subrange(start + 10, end) =~= t);
        assert(r.subrange(start, end + 11) =~= x.subrange(start, end + 11));
        assert(x.subrange(start, start + 10) =~= "<dc:title>"@);
        assert(x.subrange(end, end + 11) =~= "</dc:title>"@);
    }
}

/// Updating a document twice with the same metadata gives what updating it
/// once gives, and the second update does not fail, for every document on
/// which the first update succeeds and whose title element (once titled)
/// lies clear of its creator element.
pub proof fn lemma_update_idempotent(s: Seq<char>, m: BookMetadata)
    requires
        !opf_update_fails(s, m),
        m.authors@.len() > 0 ==> title_clear_of_creator(with_title(s, xml_escaped(m.book.title@))),
    ensures
        !opf_update_fails(updated_opf(s, m), m),
        updated_opf(updated_opf(s, m), m) == updated_opf(s, m),
{
    let t = xml_escaped(m.book.title@);
    crate::xml::lemma_escaped_is_plain(m.book.title@);
    assert forall|i: int| 0 <= i < t.len() implies #[trigger] t[i] != '<' by {}
    let titled = with_title(s, t);
    // Setting the title twice sets it once.
    if opf_title(s) is Some {
        lemma_title_read_back(s, t);
    } else {
        assert(titled == s);
    }
    assert(with_title(titled, t) == titled);
    if m.authors@.len() > 0 {
        let n = xml_escaped(m.authors@[0].name@);
        crate::xml::lemma_escaped_is_plain(m.authors@[0].name@);
        assert forall|i: int| 0 <= i < n.len() implies #[trigger] n[i] != '<' && n[i] != '>' by {}
        match creator_span(titled) {
            None => {
                assert(updated_opf(s, m) == titled);
            },
            Some((from, to)) => {
                let r = with_creator(titled, n);
                lemma_creator_read_back(titled, n);
                if opf_title(titled) is None {
                    lemma_no_title_after_splice(titled, n);
                } else {
                    let tt = opf_title(titled).unwrap();
                    if opf_title(s) is None {
                        assert(titled == s);
                    }
                    assert(tt == t);
                    let st = find_from(titled, "<dc:title>"@, 0).unwrap();
                    if st >= to {
                        lemma_title_after_splice(titled, n, t);
                    } else {
                        lemma_title_before_splice(titled, n, t);
                    }
                }
                assert(with_title(r, t) == r);
                assert(updated_opf(s, m) == r);
                assert(updated_opf(r, m) == with_creator(r, n));
            },
        }
    }
}

/// Whether the update would replace a backwards range: the book has
/// authors and, once the title is set, the first `dc:creator` element has
/// no `>` before its closing tag (as in `<dc:creator</dc:creator>`).
pub open spec fn opf_update_fails(s: Seq<char>, m: BookMetadata) -> bool {
    m.authors@.len() > 0 && match creator_span(with_title(s, xml_escaped(m.book.title@))) {
        Some((from, to)) => from > to,
        None => false,
    }
}

fn with_title_exec(s: &Vec<char>, title: &Vec<char>) -> (r: Vec<char>)
    ensures
        r@ == with_title(s@, title@),
{
    let open_tag = chars_of("<dc:title>");
    let close_tag = chars_of("</dc:title>");
    proof {
        reveal_strlit("</dc:title>");
    }
    match find_chars(s, &open_tag, 0) {
        None => s.clone(),
        Some(start) => match find_chars(s, &close_tag, start) {
            None => s.clone(),
            Some(end) => {
                proof {
                    lemma_find_from(s@, close_tag@, start as int);
                    assert(occurs_at(s@, close_tag@, end as int));
                }
                let mut out = slice_chars(s, 0, start);
                out.append(&mut open_tag.clone());
                out.append(&mut title.clone());
                out.append(&mut close_tag.clone());
                let slen = s.len();
                let mut rest = slice_chars(s, end + 11, slen);
                out.append(&mut rest);
                assert(out@ =~= with_title(s@, title@));
                out
            },
        },
    }
}

fn creator_span_exec(s: &Vec<char>) -> (r: Option<(usize, usize)>)
    ensures
        match r {
            Some((a, b)) => creator_span(s@) == Some((a as int, b as int)) && a <= s.len() && b
                <= s.len(),
            None => creator_span(s@) is None,
        },
{
    let slen = s.len();
    let open_tag = chars_of("<dc:creator");
    let close_tag = chars_of("</dc:creator>");
    let gt = chars_of(">");
    match find_chars(s, &open_tag, 0) {
        None => None,
        Some(start) => match find_chars(s, &close_tag, start) {
            None => None,
            Some(end) => match find_chars(s, &gt, start) {
                None => None,
                Some(g) => {
                    proof {
                        lemma_find_from(s@, gt@, start as int);
                        lemma_find_from(s@, close_tag@, start as int);
                        assert(occurs_at(s@, close_tag@, end as int));
                        reveal_strlit(">");
                        assert(occurs_at(s@, gt@, g as int));
                    }
                    Some((g + 1, end))
                },
            },
        },
    }
}

/// Whether `update_opf_metadata` would replace a backwards range on this
/// document (see `opf_update_fails`).
pub fn opf_update_would_fail(opf_content: &str, metadata: &BookMetadata) -> (r: bool)
    ensures
        r == opf_update_fails(opf_content@, *metadata),
{
    if metadata.authors.len() == 0 {
        return false;
    }
    let s = chars_of(opf_content);
    let title = chars_of(crate::epub::escape_xml(metadata.book.title.as_str()).as_str());
    let titled = with_title_exec(&s, &title);
    match creator_span_exec(&titled) {
        Some((from, to)) => from > to,
        None => false,
    }
}

/// Updates the title and the first author in the OPF XML content.
pub fn update_opf_metadata(opf_content: &str, metadata: &BookMetadata) -> (r: Result<
    String,
    String,
>)
    requires
        !opf_update_fails(opf_content@, *metadata),
    ensures
        r matches Ok(s) && s@ == updated_opf(opf_content@, *metadata),
{
    let s = chars_of(opf_content);
    let title = chars_of(escape_xml(metadata.book.title.as_str()).as_str());
    let titled = with_title_exec(&s, &title);
    if metadata.authors.len() == 0 {
        return Ok(string_of_chars(&titled));
    }
    let author = chars_of(escape_xml(metadata.authors[0].name.as_str()).as_str());
    match creator_span_exec(&titled) {
        None => Ok(string_of_chars(&titled)),
        Some((from, to)) => {
            proof {
                assert(creator_span(titled@) == Some((from as int, to as int)));
            }
            let tlen = titled.len();
            let mut out = slice_chars(&titled, 0, from);
            out.append(&mut author.clone());
            let mut rest = slice_chars(&titled, to, tlen);
            out.append(&mut rest);
            assert(out@ =~= updated_opf(opf_content@, *metadata));
            Ok(string_of_chars(&out))
        },
    }
}

// ---------------------------------------------------------------------------
// The archive
// ---------------------------------------------------------------------------

/// What `zip` reads from the archive held in `bytes`: `None` when
/// `ZipArchive::new` refuses the bytes; otherwise, in archive order, for
/// each entry its name (`ZipFile::name`), whether `by_index` opens it, and
/// its uncompressed data as `read_to_end` gives it (`None` when opening or
/// reading the entry fails).
pub uninterp spec fn zip_contents(bytes: Seq<u8>) -> Option<Seq<(Seq<char>, bool, Option<Seq<u8>>)>>;

/// The bytes an open archive reads from.
pub uninterp spec fn archive_bytes(a: ZipArchive<Cursor<Vec<u8>>>) -> Seq<u8>;

/// The files of an archive being written, in order: name, data written so
/// far, whether it is deflated (else stored) and its Unix permissions. The
/// last one is the file being written.
pub uninterp spec fn written_files(w: ZipOutput) -> Seq<(Seq<char>, Seq<u8>, bool, u32)>;

/// Whether `zip` accepts starting a file `(name, deflate, mode)` in an
/// archive that holds `files` (`start_file`).
pub uninterp spec fn zip_start_ok(files: Seq<(Seq<char>, Seq<u8>, bool, u32)>, file: (Seq<char>, bool, u32)) -> bool;

/// Whether `zip` accepts writing `data` into the last file of an archive
/// that holds `files` (`write_all`).
pub uninterp spec fn zip_write_ok(files: Seq<(Seq<char>, Seq<u8>, bool, u32)>, data: Seq<u8>) -> bool;

/// The bytes `ZipWriter::finish` leaves for an archive holding `files`;
/// `None` when it fails.
pub uninterp spec fn zip_finish(files: Seq<(Seq<char>, Seq<u8>, bool, u32)>) -> Option<Seq<u8>>;

/// The message of the error `ZipArchive::new` gives for `bytes`.
pub uninterp spec fn zip_open_error(bytes: Seq<u8>) -> Seq<char>;

/// The message of the error `by_index(i)` gives in the archive held in
/// `bytes`.
pub uninterp spec fn zip_index_error(bytes: Seq<u8>, i: int) -> Seq<char>;

/// The message of the error reading the data of entry `i` gives
/// (`read_to_end`) in the archive held in `bytes`.
pub uninterp spec fn zip_read_error(bytes: Seq<u8>, i: int) -> Seq<char>;

/// The message of the error `start_file` gives when refusing to start
/// `file` in an archive that holds `files`.
pub uninterp spec fn zip_start_error(files: Seq<(Seq<char>, Seq<u8>, bool, u32)>, file: (Seq<char>, bool, u32)) -> Seq<char>;

/// The message of the error `write_all` gives when refusing `data` for the
/// last file of an archive that holds `files`.
pub uninterp spec fn zip_write_error(files: Seq<(Seq<char>, Seq<u8>, bool, u32)>, data: Seq<u8>) -> Seq<char>;

/// The message of the error `ZipWriter::finish` gives for an archive that
/// holds `files`.
pub uninterp spec fn zip_finish_error(files: Seq<(Seq<char>, Seq<u8>, bool, u32)>) -> Seq<char>;

/// What reading an archive gives back for files written into it: each
/// name, opened, with its data.
pub open spec fn read_back(files: Seq<(Seq<char>, Seq<u8>, bool, u32)>) -> Seq<(Seq<char>, bool, Option<Seq<u8>>)> {
    files.map_values(|f: (Seq<char>, Seq<u8>, bool, u32)| (f.0, true, Some(f.1)))
}

/// `ZipArchive::new(Cursor::new(bytes))`: succeeds exactly when `zip` can
/// read the bytes as an archive. Errors are turned into their message.
#[verifier::external_body]
fn open_archive(bytes: Vec<u8>) -> (r: Result<ZipArchive<Cursor<Vec<u8>>>, String>)
    ensures
        r is Ok <==> zip_contents(bytes@) is Some,
        r matches Ok(a) ==> archive_bytes(a) == bytes@,
        r matches Err(e) ==> e@ == zip_open_error(bytes@),
{
    ZipArchive::new(Cursor::new(bytes)).map_err(|e| e.to_string())
}

/// `ZipArchive::len`: the number of entries.
#[verifier::external_body]
fn archive_len(a: &ZipArchive<Cursor<Vec<u8>>>) -> (r: usize)
    ensures
        zip_contents(archive_bytes(*a)) matches Some(es) ==> r == es.len(),
{
    a.len()
}

/// `ZipArchive::by_index(i)`, handing out the entry's name
/// (`ZipFile::name`). The entry is found from its own offset, so the
/// outcome depends on the archive's bytes and `i` alone; the bytes do not
/// change.
#[verifier::external_body]
fn entry_name(a: &mut ZipArchive<Cursor<Vec<u8>>>, i: usize) -> (r: Result<String, String>)
    ensures
        archive_bytes(*final(a)) == archive_bytes(*old(a)),
        zip_contents(archive_bytes(*old(a))) matches Some(es) ==> (i < es.len() ==> {
            &&& (r is Ok <==> es[i as int].1)
            &&& (r matches Ok(n) ==> n@ == es[i as int].0)
            &&& (r matches Err(e) ==> e@ == zip_index_error(archive_bytes(*old(a)), i as int))
        }),
{
    let f = a.by_index(i).map_err(|e| e.to_string())?;
    Ok(f.name().to_string())
}

/// `ZipArchive::by_index(i)`, then `read_to_end` of the entry's
/// uncompressed data. What comes back depends on the archive's bytes and
/// `i` alone; the bytes do not change.
#[verifier::external_body]
fn entry_data(a: &mut ZipArchive<Cursor<Vec<u8>>>, i: usize) -> (r: Result<Vec<u8>, String>)
    ensures
        archive_bytes(*final(a)) == archive_bytes(*old(a)),
        zip_contents(archive_bytes(*old(a))) matches Some(es) ==> (i < es.len() ==> {
            &&& (r is Ok <==> es[i as int].2 is Some)
            &&& (r matches Ok(d) ==> Some(d@) == es[i as int].2)
            &&& (r matches Err(e) ==> e@ == if es[i as int].1 {
                zip_read_error(archive_bytes(*old(a)), i as int)
            } else {
                zip_index_error(archive_bytes(*old(a)), i as int)
            })
        }),
{
    let mut f = a.by_index(i).map_err(|e| e.to_string())?;
    let mut data = Vec::new();
    std::io::Read::read_to_end(&mut f, &mut data).map_err(|e| e.to_string())?;
    Ok(data)
}

/// `ZipWriter::new(Cursor::new(Vec::new()))`: an archive with no file yet.
#[verifier::external_body]
fn new_output() -> (w: ZipOutput)
    ensures
        written_files(w) == Seq::<(Seq<char>, Seq<u8>, bool, u32)>::empty(),
{
    ZipOutput { writer: ZipWriter::new(Cursor::new(Vec::new())) }
}

/// Starts a file: `ZipWriter::start_file(name, options)`, where the options
/// are `SimpleFileOptions::default()` with the compression method (Deflated
/// when `deflate`, else Stored) and `unix_permissions(unix_mode)`. The
/// writer is handed back, with the new, empty file after the others,
/// exactly when `zip` accepts it. (Without zip's `time` feature, which this
/// crate does not enable, every file gets the same fixed modification time,
/// 1980-01-01.)
#[verifier::external_body]
fn start_file(w: ZipOutput, name: &str, deflate: bool, unix_mode: u32) -> (r: Result<ZipOutput, String>)
    ensures
        r is Ok <==> zip_start_ok(written_files(w), (name@, deflate, unix_mode)),
        r matches Ok(w2) ==> written_files(w2) == written_files(w).push(
            (name@, Seq::<u8>::empty(), deflate, unix_mode),
        ),
        r matches Err(e) ==> e@ == zip_start_error(written_files(w), (name@, deflate, unix_mode)),
{
    let mut w = w;
    let method = if deflate {
        zip::CompressionMethod::Deflated
    } else {
        zip::CompressionMethod::Stored
    };
    let options = SimpleFileOptions::default().compression_method(method).unix_permissions(
        unix_mode,
    );
    w.writer.start_file(name, options).map_err(|e| e.to_string())?;
    Ok(w)
}

/// `write_all` of `data` into the file being written. The writer is handed
/// back, with the data added to that file, exactly when `zip` accepts it.
#[verifier::external_body]
fn write_data(w: ZipOutput, data: &[u8]) -> (r: Result<ZipOutput, String>)
    ensures
        r is Ok <==> zip_write_ok(written_files(w), data@),
        r matches Ok(w2) ==> written_files(w).len() > 0 && written_files(w2) == written_files(
            w,
        ).drop_last().push(
            (
                written_files(w).last().0,
                written_files(w).last().1 + data@,
                written_files(w).last().2,
                written_files(w).last().3,
            ),
        ),
        r matches Err(e) ==> e@ == zip_write_error(written_files(w), data@),
{
    let mut w = w;
    std::io::Write::write_all(&mut w.writer, data).map_err(|e| e.to_string())?;
    Ok(w)
}

/// `ZipWriter::finish`, then the bytes written into the cursor. Reading
/// the bytes back gives every file written, by name and in order, with its
/// data.
#[verifier::external_body]
fn finish_output(w: ZipOutput) -> (r: Result<Vec<u8>, String>)
    ensures
        match r {
            Ok(v) => zip_finish(written_files(w)) == Some(v@) && zip_contents(v@) == Some(
                read_back(written_files(w)),
            ),
            Err(e) => zip_finish(written_files(w)) is None && e@ == zip_finish_error(
                written_files(w),
            ),
        },
{
    w.writer.finish().map(|c| c.into_inner()).map_err(|e| e.to_string())
}

/// `String::from_utf8`: succeeds exactly on valid UTF-8, with the decoded
/// characters. The error is dropped.
#[verifier::external_body]
fn string_from_utf8(v: Vec<u8>) -> (r: Option<String>)
    ensures
        r is Some <==> valid_utf8(v@),
        r matches Some(s) ==> s@ == decode_utf8(v@),
{
    String::from_utf8(v).ok()
}

// ---------------------------------------------------------------------------
// Rewriting the entries
// ---------------------------------------------------------------------------

/// Whether an entry holds the package metadata: its name ends with `.opf`
/// or contains `content.opf`.
pub open spec fn is_opf_entry(name: Seq<char>) -> bool {
    ends_with(name, ".opf"@) || find_from(name, "content.opf"@, 0) is Some
}

/// The new data of an entry: for the OPF document, read as UTF-8, the
/// updated document; other entries are kept as they are. `None` when the
/// OPF document is not UTF-8 or cannot be updated.
pub open spec fn rewritten_data(name: Seq<char>, data: Seq<u8>, m: BookMetadata) -> Option<
    Seq<u8>,
> {
    if is_opf_entry(name) {
        if valid_utf8(data) && !opf_update_fails(decode_utf8(data), m) {
            Some(encode_utf8(updated_opf(decode_utf8(data), m)))
        } else {
            None
        }
    } else {
        Some(data)
    }
}

/// Every entry whose name ends with `.opf`, in whatever folder, or whose
/// name contains `content.opf` is the package document: its data is
/// rewritten as an updated OPF document (and cannot be copied when it is
/// not UTF-8 or the update fails). Every other entry is copied as it is.
pub proof fn lemma_opf_entries_rewritten(name: Seq<char>, data: Seq<u8>, m: BookMetadata)
    ensures
        ends_with(name, ".opf"@) || find_from(name, "content.opf"@, 0) is Some ==> rewritten_data(
            name,
            data,
            m,
        ) == if valid_utf8(data) && !opf_update_fails(decode_utf8(data), m) {
            Some(encode_utf8(updated_opf(decode_utf8(data), m)))
        } else {
            None
        },
        !ends_with(name, ".opf"@) && find_from(name, "content.opf"@, 0) is None ==> rewritten_data(
            name,
            data,
            m,
        ) == Some(data),
{
}

/// Why the OPF document `data` cannot be rewritten: it is not UTF-8 (the
/// message `read_to_string` gives), or its creator element has no end to
/// its start tag.
pub open spec fn rewrite_error(data: Seq<u8>) -> Seq<char> {
    if !valid_utf8(data) {
        "stream did not contain valid UTF-8"@
    } else {
        "the OPF creator element has no end to its start tag"@
    }
}

/// The archive after writing `data` into the file being written, or the
/// error `zip` gives.
pub open spec fn write_step(files: Seq<(Seq<char>, Seq<u8>, bool, u32)>, data: Seq<u8>) -> Result<
    Seq<(Seq<char>, Seq<u8>, bool, u32)>,
    Seq<char>,
> {
    if zip_write_ok(files, data) {
        Ok(
            files.drop_last().push(
                (files.last().0, files.last().1 + data, files.last().2, files.last().3),
            ),
        )
    } else {
        Err(zip_write_error(files, data))
    }
}

/// The archive after starting the file `name` (deflated, mode 0644), or the
/// error `zip` gives.
pub open spec fn start_step(files: Seq<(Seq<char>, Seq<u8>, bool, u32)>, name: Seq<char>) -> Result<
    Seq<(Seq<char>, Seq<u8>, bool, u32)>,
    Seq<char>,
> {
    if zip_start_ok(files, (name, true, 0o644u32)) {
        Ok(files.push((name, Seq::<u8>::empty(), true, 0o644u32)))
    } else {
        Err(zip_start_error(files, (name, true, 0o644u32)))
    }
}

/// The archive after copying entry `i` of the archive held in `bytes` into
/// one that holds `done`, or the error of the first step that fails. The
/// entry is opened first. The OPF document is then read, rewritten, and
/// written into a new file; any other entry gets its new file started
/// before its data is read and written into it.
pub open spec fn copy_entry(
    bytes: Seq<u8>,
    done: Seq<(Seq<char>, Seq<u8>, bool, u32)>,
    entry: (Seq<char>, bool, Option<Seq<u8>>),
    i: int,
    m: BookMetadata,
) -> Result<Seq<(Seq<char>, Seq<u8>, bool, u32)>, Seq<char>> {
    let name = entry.0;
    if !entry.1 {
        Err(zip_index_error(bytes, i))
    } else if is_opf_entry(name) {
        match entry.2 {
            None => Err(zip_read_error(bytes, i)),
            Some(data) => match rewritten_data(name, data, m) {
                None => Err(rewrite_error(data)),
                Some(new_data) => match start_step(done, name) {
                    Err(e) => Err(e),
                    Ok(started) => write_step(started, new_data),
                },
            },
        }
    } else {
        match start_step(done, name) {
            Err(e) => Err(e),
            Ok(started) => match entry.2 {
                None => Err(zip_read_error(bytes, i)),
                Some(data) => write_step(started, data),
            },
        }
    }
}

/// The new archive's files after copying the first `k` entries, or the
/// error of the first step that fails.
pub open spec fn copy_entries(
    bytes: Seq<u8>,
    entries: Seq<(Seq<char>, bool, Option<Seq<u8>>)>,
    m: BookMetadata,
    k: int,
) -> Result<Seq<(Seq<char>, Seq<u8>, bool, u32)>, Seq<char>>
    decreases k,
{
    if k <= 0 {
        Ok(Seq::empty())
    } else {
        match copy_entries(bytes, entries, m, k - 1) {
            Err(e) => Err(e),
            Ok(done) => copy_entry(bytes, done, entries[k - 1], k - 1, m),
        }
    }
}

/// The updated EPUB: the bytes of a new archive holding the entries, the
/// OPF document rewritten, or the error of the first step that fails
/// (opening the archive, copying an entry, finishing the new archive).
pub open spec fn epub_update(bytes: Seq<u8>, m: BookMetadata) -> Result<Seq<u8>, Seq<char>> {
    match zip_contents(bytes) {
        None => Err(zip_open_error(bytes)),
        Some(entries) => match copy_entries(bytes, entries, m, entries.len() as int) {
            Err(e) => Err(e),
            Ok(files) => match zip_finish(files) {
                Some(out) => Ok(out),
                None => Err(zip_finish_error(files)),
            },
        },
    }
}

/// What the rewritten archive reads back as: the same entries, by name and
/// in order, each of them opened and read; the OPF document's data is the
/// updated document, every other entry keeps its data.
pub open spec fn reads_back_rewritten(
    original: Seq<(Seq<char>, bool, Option<Seq<u8>>)>,
    copied: Seq<(Seq<char>, bool, Option<Seq<u8>>)>,
    m: BookMetadata,
) -> bool {
    &&& copied.len() == original.len()
    &&& forall|i: int|
        0 <= i < original.len() ==> {
            &&& (#[trigger] copied[i]).0 == original[i].0
            &&& original[i].1 && copied[i].1
            &&& original[i].2 is Some
            &&& if is_opf_entry(original[i].0) {
                copied[i].2 == Some(
                    encode_utf8(updated_opf(decode_utf8(original[i].2.unwrap()), m)),
                )
            } else {
                copied[i].2 == original[i].2
            }
        }
}

/// Copying keeps the entries, by name and in order, each deflated with
/// mode 0644: the OPF document's data is the updated document, every other
/// file keeps its data.
pub proof fn lemma_rewrite_keeps_files(
    bytes: Seq<u8>,
    entries: Seq<(Seq<char>, bool, Option<Seq<u8>>)>,
    m: BookMetadata,
    k: int,
)
    requires
        0 <= k <= entries.len(),
    ensures
        copy_entries(bytes, entries, m, k) is Ok ==> {
            let files = copy_entries(bytes, entries, m, k)->Ok_0;
            &&& files.len() == k
            &&& forall|i: int|
                #![trigger entries[i]]
                #![trigger files[i]]
                0 <= i < k ==> {
                    &&& entries[i].1
                    &&& entries[i].2 is Some
                    &&& files[i].0 == entries[i].0
                    &&& rewritten_data(entries[i].0, entries[i].2.unwrap(), m) == Some(files[i].1)
                    &&& files[i].2
                    &&& files[i].3 == 0o644u32
                }
        },
    decreases k,
{
    if k > 0 {
        lemma_rewrite_keeps_files(bytes, entries, m, k - 1);
        if copy_entries(bytes, entries, m, k) is Ok {
            let files = copy_entries(bytes, entries, m, k)->Ok_0;
            let done = copy_entries(bytes, entries, m, k - 1)->Ok_0;
            let e = entries[k - 1];
            assert(copy_entries(bytes, entries, m, k) == copy_entry(bytes, done, e, k - 1, m));
            assert(e.1 && e.2 is Some);
            let data = e.2.unwrap();
            let d = rewritten_data(e.0, data, m).unwrap();
            let started = done.push((e.0, Seq::<u8>::empty(), true, 0o644u32));
            assert(start_step(done, e.0) == Ok::<Seq<(Seq<char>, Seq<u8>, bool, u32)>, Seq<char>>(started));
            assert(started.drop_last() =~= done);
            assert(Seq::<u8>::empty() + d =~= d);
            if is_opf_entry(e.0) {
                assert(write_step(started, d) == Ok::<Seq<(Seq<char>, Seq<u8>, bool, u32)>, Seq<char>>(files));
            } else {
                assert(d == data);
                assert(write_step(started, data) == Ok::<Seq<(Seq<char>, Seq<u8>, bool, u32)>, Seq<char>>(files));
            }
            assert(files == done.push((e.0, d, true, 0o644u32)));
            assert(copy_entries(bytes, entries, m, k - 1) is Ok);
            assert(done.len() == k - 1);
            assert(files.len() == k);
            assert forall|i: int|
                #![trigger entries[i]]
                #![trigger files[i]]
                0 <= i < k implies {
                &&& entries[i].1
                &&& entries[i].2 is Some
                &&& files[i].0 == entries[i].0
                &&& rewritten_data(entries[i].0, entries[i].2.unwrap(), m) == Some(files[i].1)
                &&& files[i].2
                &&& files[i].3 == 0o644u32
            } by {
                if i < k - 1 {
                    assert(files[i] == done[i]);
                } else {
                    assert(files[i] == (e.0, d, true, 0o644u32));
                }
            }
        }
    }
}

/// Reading back the archive written for the copied files gives the
/// entries of the original archive, with the OPF document updated and every
/// other entry unchanged.
pub proof fn lemma_read_back_rewritten(
    bytes: Seq<u8>,
    entries: Seq<(Seq<char>, bool, Option<Seq<u8>>)>,
    m: BookMetadata,
)
    requires
        copy_entries(bytes, entries, m, entries.len() as int) is Ok,
    ensures
        reads_back_rewritten(
            entries,
            read_back(copy_entries(bytes, entries, m, entries.len() as int)->Ok_0),
            m,
        ),
{
    lemma_rewrite_keeps_files(bytes, entries, m, entries.len() as int);
    let files = copy_entries(bytes, entries, m, entries.len() as int)->Ok_0;
    let copied = read_back(files);
    assert forall|i: int| 0 <= i < entries.len() implies {
        &&& (#[trigger] copied[i]).0 == entries[i].0
        &&& entries[i].1 && copied[i].1
        &&& entries[i].2 is Some
        &&& if is_opf_entry(entries[i].0) {
            copied[i].2 == Some(encode_utf8(updated_opf(decode_utf8(entries[i].2.unwrap()), m)))
        } else {
            copied[i].2 == entries[i].2
        }
    } by {
        assert(files[i].0 == entries[i].0);
        assert(copied[i] == (files[i].0, true, Some(files[i].1)));
    }
}

/// Once a step has failed, the error stays that of the first failure.
proof fn lemma_copy_error_stays(
    bytes: Seq<u8>,
    entries: Seq<(Seq<char>, bool, Option<Seq<u8>>)>,
    m: BookMetadata,
    k: int,
    l: int,
)
    requires
        0 <= k <= l,
        copy_entries(bytes, entries, m, k) is Err,
    ensures
        copy_entries(bytes, entries, m, l) == copy_entries(bytes, entries, m, k),
    decreases l - k,
{
    if k < l {
        lemma_copy_error_stays(bytes, entries, m, k, l - 1);
    }
}

/// Whether `name` holds an OPF document (see `is_opf_entry`).
pub fn is_opf_name(name: &str) -> (r: bool)
    ensures
        r == is_opf_entry(name@),
{
    let n = chars_of(name);
    let ext = chars_of(".opf");
    proof {
        reveal_strlit(".opf");
    }
    let nlen = n.len();
    let ends = nlen >= 4 && {
        let tail = slice_chars(&n, nlen - 4, nlen);
        crate::text::str_eq(string_of_chars(&tail).as_str(), ".opf")
    };
    let content = chars_of("content.opf");
    let inside = find_chars(&n, &content, 0).is_some();
    ends || inside
}

/// The new data of one archive entry (see `rewritten_data`); the error says
/// why the OPF document could not be rewritten.
pub fn rewrite_entry(name: &str, data: Vec<u8>, metadata: &BookMetadata) -> (r: Result<
    Vec<u8>,
    String,
>)
    ensures
        match r {
            Ok(d) => rewritten_data(name@, data@, *metadata) == Some(d@),
            Err(e) => rewritten_data(name@, data@, *metadata) is None && e@ == rewrite_error(
                data@,
            ),
        },
{
    if !is_opf_name(name) {
        return Ok(data);
    }
    let ghost bytes = data@;
    let content = match string_from_utf8(data) {
        Some(c) => c,
        None => return Err(String::from_str("stream did not contain valid UTF-8")),
    };
    if opf_update_would_fail(content.as_str(), metadata) {
        return Err(String::from_str("the OPF creator element has no end to its start tag"));
    }
    match update_opf_metadata(content.as_str(), metadata) {
        Ok(updated) => {
            let out = updated.as_str().as_bytes_vec();
            Ok(out)
        },
        Err(e) => Err(e),
    }
}

/// Updates the EPUB held in `epub` with the title and first author of
/// `metadata`: every file is copied into a new archive (deflated, mode
/// 0644), the OPF document with its metadata rewritten. Fails with the
/// error of the first step that fails; the new archive reads back as the
/// old one with the OPF document updated.
pub fn update_epub_metadata(epub: Vec<u8>, metadata: &BookMetadata) -> (r: Result<
    Vec<u8>,
    String,
>)
    ensures
        match r {
            Ok(out) => epub_update(epub@, *metadata) == Ok::<Seq<u8>, Seq<char>>(out@),
            Err(e) => epub_update(epub@, *metadata) == Err::<Seq<u8>, Seq<char>>(e@),
        },
        r matches Ok(out) ==> zip_contents(epub@) matches Some(original) && zip_contents(out@)
            matches Some(copied) && reads_back_rewritten(original, copied, *metadata),
{
    let ghost source = epub@;
    let mut archive = match open_archive(epub) {
        Ok(a) => a,
        Err(e) => return Err(e),
    };
    let ghost entries = zip_contents(source).unwrap();
    let n = archive_len(&archive);
    let mut output = new_output();
    let mut i: usize = 0;
    while i < n
        invariant
            source == epub@,
            zip_contents(source) == Some(entries),
            n == entries.len(),
            archive_bytes(archive) == source,
            i <= n,
            copy_entries(source, entries, *metadata, i as int) == Ok::<
                Seq<(Seq<char>, Seq<u8>, bool, u32)>,
                Seq<char>,
            >(written_files(output)),
        decreases n - i,
    {
        let ghost done = written_files(output);
        let ghost entry = entries[i as int];
        assert(copy_entries(source, entries, *metadata, i + 1) == copy_entry(
            source,
            done,
            entry,
            i as int,
            *metadata,
        ));
        let name = match entry_name(&mut archive, i) {
            Ok(n) => n,
            Err(e) => {
                proof {
                    lemma_copy_error_stays(source, entries, *metadata, i + 1, n as int);
                }
                return Err(e);
            },
        };
        if is_opf_name(name.as_str()) {
            let data = match entry_data(&mut archive, i) {
                Ok(d) => d,
                Err(e) => {
                    proof {
                        lemma_copy_error_stays(source, entries, *metadata, i + 1, n as int);
                    }
                    return Err(e);
                },
            };
            let new_data = match rewrite_entry(name.as_str(), data, metadata) {
                Ok(d) => d,
                Err(e) => {
                    proof {
                        lemma_copy_error_stays(source, entries, *metadata, i + 1, n as int);
                    }
                    return Err(e);
                },
            };
            output = match start_file(output, name.as_str(), true, 0o644) {
                Ok(w) => w,
                Err(e) => {
                    proof {
                        lemma_copy_error_stays(source, entries, *metadata, i + 1, n as int);
                    }
                    return Err(e);
                },
            };
            output = match write_data(output, new_data.as_slice()) {
                Ok(w) => w,
                Err(e) => {
                    proof {
                        lemma_copy_error_stays(source, entries, *metadata, i + 1, n as int);
                    }
                    return Err(e);
                },
            };
        } else {
            output = match start_file(output, name.as_str(), true, 0o644) {
                Ok(w) => w,
                Err(e) => {
                    proof {
                        lemma_copy_error_stays(source, entries, *metadata, i + 1, n as int);
                    }
                    return Err(e);
                },
            };
            let data = match entry_data(&mut archive, i) {
                Ok(d) => d,
                Err(e) => {
                    proof {
                        lemma_copy_error_stays(source, entries, *metadata, i + 1, n as int);
                    }
                    return Err(e);
                },
            };
            output = match write_data(output, data.as_slice()) {
                Ok(w) => w,
                Err(e) => {
                    proof {
                        lemma_copy_error_stays(source, entries, *metadata, i + 1, n as int);
                    }
                    return Err(e);
                },
            };
        }
        i = i + 1;
    }
    let result = finish_output(output);
    proof {
        if result is Ok {
            lemma_read_back_rewritten(source, entries, *metadata);
        }
    }
    result
}

} // verus!
