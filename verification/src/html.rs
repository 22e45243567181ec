//! Data of the HTML pages, and the relative rendering of dates shown on them.

use vstd::prelude::*;
use chrono::NaiveDate;
use crate::dates::{days_between, days_from, parse_date, parsed_date, today_utc};
use crate::db::models::{custom_value_text, BookMetadata, Category, CustomValue};
use crate::text::{chars_of, push_signed_decimal, push_str, signed_decimal, slice_chars, string_of_chars};

verus! {

/// Data of the index page.
pub struct IndexTemplate {
    pub prefix: String,
}

/// Data of a page listing categories.
pub struct CategoriesTemplate {
    pub title: String,
    pub categories: Vec<Category>,
    pub base_path: String,
    pub prefix: String,
}

/// Data of a page listing books.
pub struct BooksTemplate {
    pub title: String,
    pub books: Vec<BookMetadata>,
    pub page: i64,
    pub per_page: i64,
    pub total: i64,
    pub sort: String,
    pub view: String,
    pub prefix: String,
}

/// Whether `c` has the Unicode `White_Space` property (what
/// `char::is_whitespace` tests): tab, line feed, vertical tab, form feed,
/// carriage return, space, next line, no-break space, Ogham space mark,
/// the spaces U+2000 to U+200A, line and paragraph separators, narrow
/// no-break space, medium mathematical space and ideographic space.
pub open spec fn unicode_whitespace(c: char) -> bool {
    let u = c as u32;
    ||| 0x09 <= u <= 0x0d
    ||| u == 0x20
    ||| u == 0x85
    ||| u == 0xa0
    ||| u == 0x1680
    ||| 0x2000 <= u <= 0x200a
    ||| u == 0x2028
    ||| u == 0x2029
    ||| u == 0x202f
    ||| u == 0x205f
    ||| u == 0x3000
}

/// Whether `c` is whitespace (see `unicode_whitespace`).
pub fn is_whitespace(c: char) -> (r: bool)
    ensures
        r == unicode_whitespace(c),
{
    let u = c as u32;
    (0x09 <= u && u <= 0x0d) || u == 0x20 || u == 0x85 || u == 0xa0 || u == 0x1680 || (0x2000
        <= u && u <= 0x200a) || u == 0x2028 || u == 0x2029 || u == 0x202f || u == 0x205f || u
        == 0x3000
}

/// The first index at or after `i` that is not whitespace.
pub open spec fn skip_whitespace(s: Seq<char>, i: int) -> int
    decreases s.len() - i,
{
    if i < 0 || i >= s.len() {
        s.len() as int
    } else if unicode_whitespace(s[i]) {
        skip_whitespace(s, i + 1)
    } else {
        i
    }
}

/// The first index at or after `i` that is whitespace.
pub open spec fn word_end(s: Seq<char>, i: int) -> int
    decreases s.len() - i,
{
    if i < 0 || i >= s.len() {
        s.len() as int
    } else if unicode_whitespace(s[i]) {
        i
    } else {
        word_end(s, i + 1)
    }
}

/// The first whitespace-separated word of `s` (`split_whitespace().next()`).
pub open spec fn first_word(s: Seq<char>) -> Option<Seq<char>> {
    let a = skip_whitespace(s, 0);
    if a >= s.len() {
        None
    } else {
        Some(s.subrange(a, word_end(s, a)))
    }
}

/// The first index at or after `i` holding `c`, or the length.
pub open spec fn index_of_char(s: Seq<char>, c: char, i: int) -> int
    decreases s.len() - i,
{
    if i < 0 || i >= s.len() {
        s.len() as int
    } else if s[i] == c {
        i
    } else {
        index_of_char(s, c, i + 1)
    }
}

/// The date part of a date-time text: its first word (or the whole text
/// when it has none), cut before the first `T`.
pub open spec fn date_part(raw: Seq<char>) -> Seq<char> {
    let word = match first_word(raw) {
        Some(w) => w,
        None => raw,
    };
    word.subrange(0, index_of_char(word, 'T', 0))
}

proof fn lemma_skip_bounds(s: Seq<char>, i: int)
    requires
        0 <= i <= s.len(),
    ensures
        i <= skip_whitespace(s, i) <= s.len(),
        i <= word_end(s, i) <= s.len(),
        i <= index_of_char(s, 'T', i) <= s.len(),
    decreases s.len() - i,
{
    if i < s.len() {
        lemma_skip_bounds(s, i + 1);
    }
}

/// The date part of a date-time text (see `date_part`).
pub fn date_part_of(raw: &str) -> (r: String)
    ensures
        r@ == date_part(raw@),
{
    let s = chars_of(raw);
    let n = s.len();
    let mut a: usize = 0;
    proof {
        lemma_skip_bounds(s@, 0);
    }
    while a < n && is_whitespace(s[a])
        invariant
            a <= n,
            n == s.len(),
            skip_whitespace(s@, 0) == skip_whitespace(s@, a as int),
        decreases n - a,
    {
        a = a + 1;
    }
    let word: Vec<char> = if a >= n {
        s.clone()
    } else {
        let mut b: usize = a;
        while b < n && !is_whitespace(s[b])
            invariant
                a <= b <= n,
                n == s.len(),
                word_end(s@, a as int) == word_end(s@, b as int),
            decreases n - b,
        {
            b = b + 1;
        }
        slice_chars(&s, a, b)
    };
    let w = word.len();
    let mut t: usize = 0;
    while t < w && word[t] != 'T'
        invariant
            t <= w,
            w == word.len(),
            index_of_char(word@, 'T', 0) == index_of_char(word@, 'T', t as int),
        decreases w - t,
    {
        t = t + 1;
    }
    let cut = slice_chars(&word, 0, t);
    string_of_chars(&cut)
}

/// How long ago, in words, a date `days` days back is.
pub open spec fn relative_phrase(days: int) -> Seq<char> {
    if days == 0 {
        "today"@
    } else if days == 1 {
        "yesterday"@
    } else if days < 30 {
        signed_decimal(days) + " days ago"@
    } else if days < 365 {
        if days / 30 == 1 {
            "1 month ago"@
        } else {
            signed_decimal(days / 30) + " months ago"@
        }
    } else {
        if days / 365 == 1 {
            "1 year ago"@
        } else {
            signed_decimal(days / 365) + " years ago"@
        }
    }
}

/// How long ago, in words, a date `days` days back is: `today`,
/// `yesterday`, then days below 30, months of 30 days below 365, years of
/// 365 days.
pub fn relative_phrase_of(days: i64) -> (r: String)
    ensures
        r@ == relative_phrase(days as int),
{
    if days == 0 {
        String::from_str("today")
    } else if days == 1 {
        String::from_str("yesterday")
    } else if days < 30 {
        let mut out = String::new();
        push_signed_decimal(&mut out, days);
        push_str(&mut out, " days ago");
        assert(out@ =~= relative_phrase(days as int));
        out
    } else if days < 365 {
        let months: u64 = (days as u64) / 30;
        if months == 1 {
            String::from_str("1 month ago")
        } else {
            let mut out = String::new();
            push_signed_decimal(&mut out, months as i64);
            push_str(&mut out, " months ago");
            assert(out@ =~= relative_phrase(days as int));
            out
        }
    } else {
        let years: u64 = (days as u64) / 365;
        if years == 1 {
            String::from_str("1 year ago")
        } else {
            let mut out = String::new();
            push_signed_decimal(&mut out, years as i64);
            push_str(&mut out, " years ago");
            assert(out@ =~= relative_phrase(days as int));
            out
        }
    }
}

/// The relative rendering of a date value seen on `today`: the phrase for
/// the days since its date part, then the date part in brackets. A date
/// part that is not `YYYY-MM-DD` counts as today.
pub open spec fn relative_date_text(v: CustomValue, today: NaiveDate) -> Seq<char> {
    let dp = date_part(custom_value_text(v));
    let date = match parsed_date(dp, "%Y-%m-%d"@) {
        Some(d) => d,
        None => today,
    };
    relative_phrase(days_between(today, date) as int) + " ("@ + dp + ")"@
}

/// Formats a date value as relative time with its date, e.g.
/// `3 months ago (2026-01-26)`, as seen on `today`.
pub fn relative_date_on(value: &CustomValue, today: NaiveDate) -> (r: String)
    ensures
        r@ == relative_date_text(*value, today),
{
    let raw = value.to_text();
    let date_str = date_part_of(raw.as_str());
    let date = match parse_date(date_str.as_str(), "%Y-%m-%d") {
        Some(d) => d,
        None => today,
    };
    let days = days_from(today, date);
    let mut out = relative_phrase_of(days);
    push_str(&mut out, " (");
    push_str(&mut out, date_str.as_str());
    push_str(&mut out, ")");
    out
}

/// Formats a date value as relative time with its date, as seen today.
pub fn relative_date(value: &CustomValue) -> (r: String)
    ensures
        exists|today: NaiveDate| r@ == relative_date_text(*value, today),
{
    let today = today_utc();
    relative_date_on(value, today)
}

} // verus!
