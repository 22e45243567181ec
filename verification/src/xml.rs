//! The XML shapes that the feeds are made of: escaped text, attributes,
//! elements and empty tags, as `quick_xml` lays them out without indentation.

use vstd::prelude::*;
use crate::text::push_str;

verus! {

/// The entity that `quick_xml::escape::escape` writes for one character.
pub open spec fn escaped_char(c: char) -> Seq<char> {
    if c == '<' {
        "&lt;"@
    } else if c == '>' {
        "&gt;"@
    } else if c == '&' {
        "&amp;"@
    } else if c == '\'' {
        "&apos;"@
    } else if c == '"' {
        "&quot;"@
    } else {
        seq![c]
    }
}

/// `s` with each of `<`, `>`, `&`, `'`, `"` replaced by its entity.
pub open spec fn xml_escaped(s: Seq<char>) -> Seq<char>
    decreases s.len(),
{
    if s.len() == 0 {
        Seq::empty()
    } else {
        xml_escaped(s.drop_last()) + escaped_char(s.last())
    }
}

/// `quick_xml::escape::escape`, the escaping that `BytesText::new` and
/// attribute values given as `(&str, &str)` go through: each of `<`, `>`,
/// `&`, `'`, `"` becomes `&lt;`, `&gt;`, `&amp;`, `&apos;`, `&quot;`, every
/// other character is kept.
#[verifier::external_body]
pub(crate) fn quick_escape(raw: &str) -> (r: String)
    ensures
        r@ == xml_escaped(raw@),
{
    quick_xml::escape::escape(raw).into_owned()
}

/// Escaped text holds no `<`, `>`, `"` or `'`, and text without `<`, `>`,
/// `&`, `'`, `"` is left as it is.
pub proof fn lemma_escaped_is_plain(s: Seq<char>)
    ensures
        forall|i: int|
            0 <= i < xml_escaped(s).len() ==> {
                let c = #[trigger] xml_escaped(s)[i];
                c != '<' && c != '>' && c != '"' && c != '\''
            },
        (forall|i: int|
            0 <= i < s.len() ==> {
                let c = #[trigger] s[i];
                c != '<' && c != '>' && c != '&' && c != '"' && c != '\''
            }) ==> xml_escaped(s) == s,
    decreases s.len(),
{
    reveal_strlit("&lt;");
    reveal_strlit("&gt;");
    reveal_strlit("&amp;");
    reveal_strlit("&apos;");
    reveal_strlit("&quot;");
    if s.len() > 0 {
        let p = s.drop_last();
        lemma_escaped_is_plain(p);
        let e = escaped_char(s.last());
        assert forall|i: int| 0 <= i < xml_escaped(s).len() implies {
            let c = #[trigger] xml_escaped(s)[i];
            c != '<' && c != '>' && c != '"' && c != '\''
        } by {
            if i < xml_escaped(p).len() {
                assert(xml_escaped(s)[i] == xml_escaped(p)[i]);
            } else {
                assert(xml_escaped(s)[i] == e[i - xml_escaped(p).len()]);
            }
        }
        if forall|i: int|
            0 <= i < s.len() ==> {
                let c = #[trigger] s[i];
                c != '<' && c != '>' && c != '&' && c != '"' && c != '\''
            } {
            assert forall|i: int|
                0 <= i < p.len() implies {
                let c = #[trigger] p[i];
                c != '<' && c != '>' && c != '&' && c != '"' && c != '\''
            } by {
                assert(p[i] == s[i]);
            }
            assert(s.last() == s[s.len() - 1]);
            assert(xml_escaped(s) =~= p.push(s.last()));
            assert(p.push(s.last()) =~= s);
        }
    } else {
        assert(xml_escaped(s) =~= s);
    }
}

/// Whether `s` begins with `p`.
pub open spec fn begins_with(s: Seq<char>, p: Seq<char>) -> bool {
    p.len() <= s.len() && s.subrange(0, p.len() as int) == p
}

/// `s` with the entities `&lt;`, `&gt;`, `&quot;`, `&apos;` and `&amp;`
/// read back as `<`, `>`, `"`, `'` and `&`, from left to right; any other
/// character is kept.
pub open spec fn xml_unescaped(s: Seq<char>) -> Seq<char>
    decreases s.len(),
{
    if s.len() == 0 {
        Seq::empty()
    } else if begins_with(s, seq!['&', 'l', 't', ';']) {
        seq!['<'] + xml_unescaped(s.skip(4))
    } else if begins_with(s, seq!['&', 'g', 't', ';']) {
        seq!['>'] + xml_unescaped(s.skip(4))
    } else if begins_with(s, seq!['&', 'q', 'u', 'o', 't', ';']) {
        seq!['"'] + xml_unescaped(s.skip(6))
    } else if begins_with(s, seq!['&', 'a', 'p', 'o', 's', ';']) {
        seq!['\''] + xml_unescaped(s.skip(6))
    } else if begins_with(s, seq!['&', 'a', 'm', 'p', ';']) {
        seq!['&'] + xml_unescaped(s.skip(5))
    } else {
        seq![s[0]] + xml_unescaped(s.skip(1))
    }
}

/// Whether one of the five entities begins at `i` in `s`.
pub open spec fn entity_at(s: Seq<char>, i: int) -> bool {
    let t = s.skip(i);
    ||| begins_with(t, "&lt;"@)
    ||| begins_with(t, "&gt;"@)
    ||| begins_with(t, "&amp;"@)
    ||| begins_with(t, "&apos;"@)
    ||| begins_with(t, "&quot;"@)
}

/// Escaping text piece by piece gives the escaped text.
pub proof fn lemma_escaped_concat(a: Seq<char>, b: Seq<char>)
    ensures
        xml_escaped(a + b) == xml_escaped(a) + xml_escaped(b),
    decreases b.len(),
{
    if b.len() == 0 {
        assert(a + b =~= a);
        assert(xml_escaped(a) + xml_escaped(b) =~= xml_escaped(a));
    } else {
        lemma_escaped_concat(a, b.drop_last());
        assert((a + b).drop_last() =~= a + b.drop_last());
        assert((a + b).last() == b.last());
    }
}

/// A text does not begin with `p` when they differ at some index.
proof fn lemma_not_begins(s: Seq<char>, p: Seq<char>, k: int)
    requires
        0 <= k < p.len(),
        k < s.len(),
        s[k] != p[k],
    ensures
        !begins_with(s, p),
{
    if begins_with(s, p) {
        assert(s.subrange(0, p.len() as int)[k] == s[k]);
    }
}

/// Reading back the entity of a character gives the character.
proof fn lemma_unescape_char(c: char, t: Seq<char>)
    ensures
        xml_unescaped(escaped_char(c) + t) == seq![c] + xml_unescaped(t),
{
    reveal_strlit("&lt;");
    reveal_strlit("&gt;");
    reveal_strlit("&amp;");
    reveal_strlit("&apos;");
    reveal_strlit("&quot;");
    let e = escaped_char(c);
    let s = e + t;
    let lt = seq!['&', 'l', 't', ';'];
    let gt = seq!['&', 'g', 't', ';'];
    let quot = seq!['&', 'q', 'u', 'o', 't', ';'];
    let apos = seq!['&', 'a', 'p', 'o', 's', ';'];
    let amp = seq!['&', 'a', 'm', 'p', ';'];
    assert(s.skip(e.len() as int) =~= t);
    assert(s.subrange(0, e.len() as int) =~= e);
    if c == '<' {
        assert(e =~= lt);
    } else if c == '>' {
        assert(e =~= gt);
        lemma_not_begins(s, lt, 1);
    } else if c == '"' {
        assert(e =~= quot);
        lemma_not_begins(s, lt, 1);
        lemma_not_begins(s, gt, 1);
    } else if c == '\'' {
        assert(e =~= apos);
        lemma_not_begins(s, lt, 1);
        lemma_not_begins(s, gt, 1);
        lemma_not_begins(s, quot, 1);
    } else if c == '&' {
        assert(e =~= amp);
        lemma_not_begins(s, lt, 1);
        lemma_not_begins(s, gt, 1);
        lemma_not_begins(s, quot, 1);
        lemma_not_begins(s, apos, 2);
    } else {
        assert(e =~= seq![c]);
        lemma_not_begins(s, lt, 0);
        lemma_not_begins(s, gt, 0);
        lemma_not_begins(s, quot, 0);
        lemma_not_begins(s, apos, 0);
        lemma_not_begins(s, amp, 0);
    }
}

/// Unescaping escaped text gives the text back, and in escaped text every
/// `&` begins one of the entities `&amp;`, `&lt;`, `&gt;`, `&quot;`,
/// `&apos;` (so no `<`, `>`, `"` or `'` and no other reference occurs).
pub proof fn lemma_escape_round_trip(s: Seq<char>)
    ensures
        xml_unescaped(xml_escaped(s)) == s,
        forall|i: int|
            0 <= i < xml_escaped(s).len() && #[trigger] xml_escaped(s)[i] == '&' ==> entity_at(
                xml_escaped(s),
                i,
            ),
    decreases s.len(),
{
    reveal_strlit("&lt;");
    reveal_strlit("&gt;");
    reveal_strlit("&amp;");
    reveal_strlit("&apos;");
    reveal_strlit("&quot;");
    if s.len() == 0 {
        assert(xml_unescaped(xml_escaped(s)) =~= s);
    } else {
        let c = s[0];
        let rest = s.skip(1);
        lemma_escape_round_trip(rest);
        assert(s =~= seq![c] + rest);
        lemma_escaped_concat(seq![c], rest);
        assert(xml_escaped(seq![c]) =~= escaped_char(c)) by {
            let one = seq![c];
            assert(one.drop_last() =~= Seq::<char>::empty());
            assert(one.last() == c);
            assert(xml_escaped(one.drop_last()) == Seq::<char>::empty());
            assert(xml_escaped(one) == xml_escaped(one.drop_last()) + escaped_char(one.last()));
        }
        let e = escaped_char(c);
        let er = xml_escaped(rest);
        assert(xml_escaped(s) == e + er);
        lemma_unescape_char(c, er);
        assert(seq![c] + rest =~= s);
        assert forall|i: int|
            0 <= i < xml_escaped(s).len() && #[trigger] xml_escaped(s)[i] == '&' implies entity_at(
            xml_escaped(s),
            i,
        ) by {
            let x = xml_escaped(s);
            if i < e.len() {
                assert(x[i] == e[i]);
                assert(i == 0);
                assert(x.skip(0) =~= x);
                assert(x.subrange(0, e.len() as int) =~= e);
            } else {
                let j = i - e.len();
                assert(x[i] == er[j]);
                assert(entity_at(er, j));
                assert(x.skip(i) =~= er.skip(j));
            }
        }
    }
}

/// The XML declaration written by `BytesDecl::new("1.0", Some("UTF-8"), None)`.
pub open spec fn xml_declaration() -> Seq<char> {
    "<?xml version=\"1.0\" encoding=\"UTF-8\"?>"@
}

/// ` key="value"` with the value escaped.
pub open spec fn attribute(key: Seq<char>, value: Seq<char>) -> Seq<char> {
    " "@ + key + "=\""@ + xml_escaped(value) + "\""@
}

/// `<tag>text</tag>` with the text escaped.
pub open spec fn element(tag: Seq<char>, text: Seq<char>) -> Seq<char> {
    "<"@ + tag + ">"@ + xml_escaped(text) + "</"@ + tag + ">"@
}

/// `<link rel=".." href=".." type=".."/>`.
pub open spec fn link(rel: Seq<char>, href: Seq<char>, kind: Seq<char>) -> Seq<char> {
    "<link"@ + attribute("rel"@, rel) + attribute("href"@, href) + attribute("type"@, kind)
        + "/>"@
}

/// Appends ` key="value"` with the value escaped.
pub fn write_attribute(out: &mut String, key: &str, value: &str)
    ensures
        final(out)@ == old(out)@ + attribute(key@, value@),
{
    let v = quick_escape(value);
    push_str(out, " ");
    push_str(out, key);
    push_str(out, "=\"");
    push_str(out, v.as_str());
    push_str(out, "\"");
    assert(out@ =~= old(out)@ + attribute(key@, value@));
}

/// Appends `<tag>text</tag>` with the text escaped.
pub fn write_element(out: &mut String, tag: &str, text: &str)
    ensures
        final(out)@ == old(out)@ + element(tag@, text@),
{
    let t = quick_escape(text);
    push_str(out, "<");
    push_str(out, tag);
    push_str(out, ">");
    push_str(out, t.as_str());
    push_str(out, "</");
    push_str(out, tag);
    push_str(out, ">");
    assert(out@ =~= old(out)@ + element(tag@, text@));
}

/// Appends `<link rel=".." href=".." type=".."/>`.
pub fn write_link(out: &mut String, rel: &str, href: &str, kind: &str)
    ensures
        final(out)@ == old(out)@ + link(rel@, href@, kind@),
{
    push_str(out, "<link");
    write_attribute(out, "rel", rel);
    write_attribute(out, "href", href);
    write_attribute(out, "type", kind);
    push_str(out, "/>");
    assert(out@ =~= old(out)@ + link(rel@, href@, kind@));
}

} // verus!
