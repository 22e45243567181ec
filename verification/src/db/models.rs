//! Records of a Calibre library, as the catalog logic reads them.

use vstd::prelude::*;
use chrono::NaiveDateTime;
use crate::text::signed_decimal;

verus! {

/// Book record from the Calibre database.
///
/// Dates are chrono values; the series index, a float in the database, is
/// held as the text it is displayed with.
#[derive(Debug, Clone)]
pub struct Book {
    pub id: i64,
    pub title: String,
    pub sort: Option<String>,
    pub timestamp: Option<NaiveDateTime>,
    pub pubdate: Option<NaiveDateTime>,
    pub series_index: Option<String>,
    pub author_sort: Option<String>,
    pub path: String,
    pub uuid: Option<String>,
    pub has_cover: Option<bool>,
    pub last_modified: Option<NaiveDateTime>,
}

/// Author record.
#[derive(Debug, Clone)]
pub struct Author {
    pub id: i64,
    pub name: String,
    pub sort: Option<String>,
    pub link: Option<String>,
}

/// Book format (epub, pdf, ...).
#[derive(Debug, Clone)]
pub struct BookFormat {
    pub id: i64,
    pub book: i64,
    pub format: String,
    pub uncompressed_size: Option<i64>,
    pub name: String,
}

/// Custom column definition.
#[derive(Debug, Clone)]
pub struct CustomColumn {
    pub id: i64,
    pub label: String,
    pub name: String,
    pub datatype: String,
    pub mark_for_delete: bool,
    pub editable: bool,
    pub display: String,
    pub is_multiple: bool,
    pub normalized: bool,
}

/// Value of a custom column. A float value is held as its display text.
#[derive(Debug)]
pub enum CustomValue {
    Text(String),
    Int(i64),
    Float(String),
    Bool(bool),
    DateTime(String),
}

/// The text a custom column value is written as.
pub open spec fn custom_value_text(v: CustomValue) -> Seq<char> {
    match v {
        CustomValue::Text(s) => s@,
        CustomValue::Int(i) => signed_decimal(i as int),
        CustomValue::Float(s) => s@,
        CustomValue::Bool(b) => if b {
            "true"@
        } else {
            "false"@
        },
        CustomValue::DateTime(s) => s@,
    }
}

impl CustomValue {
    /// The text the value is displayed as.
    pub fn to_text(&self) -> (r: String)
        ensures
            r@ == custom_value_text(*self),
    {
        match self {
            CustomValue::Text(s) => s.clone(),
            CustomValue::Int(i) => crate::text::i64_to_string(*i),
            CustomValue::Float(s) => s.clone(),
            CustomValue::Bool(b) => if *b {
                String::from_str("true")
            } else {
                String::from_str("false")
            },
            CustomValue::DateTime(s) => s.clone(),
        }
    }
}

impl Clone for CustomValue {
    fn clone(&self) -> (r: Self)
        ensures
            r == *self,
    {
        match self {
            CustomValue::Text(s) => CustomValue::Text(s.clone()),
            CustomValue::Int(i) => CustomValue::Int(*i),
            CustomValue::Float(s) => CustomValue::Float(s.clone()),
            CustomValue::Bool(b) => CustomValue::Bool(*b),
            CustomValue::DateTime(s) => CustomValue::DateTime(s.clone()),
        }
    }
}

/// Category for navigation (an author, a series, a tag, ...).
#[derive(Debug, Clone)]
pub struct Category {
    pub id: i64,
    pub name: String,
    pub count: i64,
}

/// The labels of a sequence of custom column entries.
pub open spec fn entry_labels(s: Seq<(Seq<char>, CustomValue)>) -> Seq<Seq<char>> {
    s.map_values(|e: (Seq<char>, CustomValue)| e.0)
}

/// `s` with the value of `label` set to `value`: replaced in place when the
/// label is present, appended otherwise.
pub open spec fn entries_insert(
    s: Seq<(Seq<char>, CustomValue)>,
    label: Seq<char>,
    value: CustomValue,
) -> Seq<(Seq<char>, CustomValue)> {
    if entry_labels(s).contains(label) {
        s.update(entry_labels(s).index_of(label), (label, value))
    } else {
        s.push((label, value))
    }
}

/// The value stored under `label`, if any.
pub open spec fn entries_lookup(s: Seq<(Seq<char>, CustomValue)>, label: Seq<char>) -> Option<
    CustomValue,
> {
    if entry_labels(s).contains(label) {
        Some(s[entry_labels(s).index_of(label)].1)
    } else {
        None
    }
}

/// The entries of a vector with the labels taken by their view.
pub open spec fn entries_view(v: Seq<(String, CustomValue)>) -> Seq<(Seq<char>, CustomValue)> {
    v.map_values(|e: (String, CustomValue)| (e.0@, e.1))
}

/// Custom column values of a book, keyed by column label. No label occurs
/// twice; entries keep the order in which they were first inserted.
#[derive(Debug)]
pub struct CustomColumns {
    entries: Vec<(String, CustomValue)>,
}

impl View for CustomColumns {
    type V = Seq<(Seq<char>, CustomValue)>;

    closed spec fn view(&self) -> Seq<(Seq<char>, CustomValue)> {
        entries_view(self.entries@)
    }
}

impl CustomColumns {
    #[verifier::type_invariant]
    closed spec fn labels_distinct(self) -> bool {
        entry_labels(self@).no_duplicates()
    }

    /// An empty set of values.
    pub fn new() -> (r: Self)
        ensures
            r@ == Seq::<(Seq<char>, CustomValue)>::empty(),
    {
        let r = CustomColumns { entries: Vec::new() };
        assert(r@ =~= Seq::<(Seq<char>, CustomValue)>::empty());
        r
    }

    /// Number of entries.
    pub fn len(&self) -> (r: usize)
        ensures
            r == self@.len(),
    {
        self.entries.len()
    }

    /// The `i`-th entry, in insertion order.
    pub fn entry(&self, i: usize) -> (r: (&String, &CustomValue))
        requires
            i < self@.len(),
        ensures
            r.0@ == self@[i as int].0,
            *r.1 == self@[i as int].1,
    {
        let e = &self.entries[i];
        (&e.0, &e.1)
    }

    /// Sets the value of `label`, as `HashMap::insert` does: an existing
    /// entry is replaced in place, a new label is appended.
    pub fn insert(&mut self, label: String, value: CustomValue)
        ensures
            final(self)@ == entries_insert(old(self)@, label@, value),
            entry_labels(final(self)@).no_duplicates(),
    {
        proof {
            use_type_invariant(&*self);
        }
        let ghost old_view = self@;
        let n = self.entries.len();
        let mut i: usize = 0;
        while i < n
            invariant
                n == self.entries.len(),
                self@ == old_view,
                old_view == old(self)@,
                i <= n,
                entry_labels(old_view).no_duplicates(),
                forall|k: int| 0 <= k < i ==> old_view[k].0 != label@,
            decreases n - i,
        {
            if crate::text::str_eq(self.entries[i].0.as_str(), label.as_str()) {
                proof {
                    assert(entry_labels(old_view)[i as int] == label@);
                    assert(entry_labels(old_view).contains(label@));
                    let j = entry_labels(old_view).index_of(label@);
                    assert(entry_labels(old_view)[j] == label@);
                    assert(j == i);
                }
                let mut entries = Vec::new();
                std::mem::swap(&mut entries, &mut self.entries);
                let ghost lv = label@;
                entries.set(i, (label, value));
                proof {
                    assert(entries_view(entries@) =~= entries_insert(old_view, lv, value));
                    assert(entry_labels(entries_view(entries@)) =~= entry_labels(old_view));
                }
                self.entries = entries;
                return;
            }
            i = i + 1;
        }
        proof {
            assert(!entry_labels(old_view).contains(label@)) by {
                if entry_labels(old_view).contains(label@) {
                    let j = entry_labels(old_view).index_of(label@);
                    assert(old_view[j].0 == label@);
                }
            }
        }
        let mut entries = Vec::new();
        std::mem::swap(&mut entries, &mut self.entries);
        let ghost lv = label@;
        entries.push((label, value));
        proof {
            assert(entries_view(entries@) =~= entries_insert(old_view, lv, value));
            assert(entry_labels(entries_view(entries@)) =~= entry_labels(old_view).push(lv));
        }
        self.entries = entries;
    }
}

impl Clone for CustomColumns {
    fn clone(&self) -> (r: Self)
        ensures
            r@ == self@,
    {
        proof {
            use_type_invariant(self);
        }
        let mut entries: Vec<(String, CustomValue)> = Vec::new();
        let mut i: usize = 0;
        while i < self.entries.len()
            invariant
                i <= self.entries.len(),
                entries_view(entries@) == entries_view(self.entries@).take(i as int),
            decreases self.entries.len() - i,
        {
            let e = &self.entries[i];
            let c0 = e.0.clone();
            let c1 = e.1.clone();
            let ghost before = entries@;
            assert(c0 == e.0);
            assert(c1 == e.1);
            assert(before.len() == i) by {
                assert(entries_view(before).len() == before.len());
            }
            entries.push((c0, c1));
            assert(entries@[i as int] == self.entries@[i as int]);
            assert(entries@ =~= before.push(self.entries@[i as int]));
            assert(entries_view(entries@) =~= entries_view(self.entries@).take(i + 1));
            i = i + 1;
        }
        assert(entries_view(self.entries@).take(i as int) =~= entries_view(self.entries@));
        CustomColumns { entries }
    }
}

/// Reading a label back after setting it gives the value set; other labels
/// keep their values. (Holds of every set of entries without repeated labels.)
pub proof fn lemma_lookup_after_insert(
    s: Seq<(Seq<char>, CustomValue)>,
    label: Seq<char>,
    value: CustomValue,
    other: Seq<char>,
)
    requires
        entry_labels(s).no_duplicates(),
    ensures
        entries_lookup(entries_insert(s, label, value), label) == Some(value),
        other != label ==> entries_lookup(entries_insert(s, label, value), other) == entries_lookup(
            s,
            other,
        ),
        entry_labels(entries_insert(s, label, value)).no_duplicates(),
{
    let t = entries_insert(s, label, value);
    if entry_labels(s).contains(label) {
        let j = entry_labels(s).index_of(label);
        assert(entry_labels(t) =~= entry_labels(s));
        assert(entry_labels(t)[j] == label);
        assert(entry_labels(t).index_of(label) == j);
        if other != label && entry_labels(s).contains(other) {
            let k = entry_labels(s).index_of(other);
            assert(entry_labels(t).index_of(other) == k);
        }
    } else {
        assert(entry_labels(t) =~= entry_labels(s).push(label));
        assert(entry_labels(t)[s.len() as int] == label);
        assert(entry_labels(t).index_of(label) == s.len());
        if other != label && entry_labels(s).contains(other) {
            let k = entry_labels(s).index_of(other);
            assert(entry_labels(t)[k] == other);
            assert(entry_labels(t).index_of(other) == k);
        }
        if other != label && !entry_labels(s).contains(other) {
            assert(!entry_labels(t).contains(other));
        }
    }
}

/// Book with all its metadata, custom columns included.
#[derive(Debug, Clone)]
pub struct BookMetadata {
    pub book: Book,
    pub authors: Vec<Author>,
    pub formats: Vec<BookFormat>,
    pub custom_columns: CustomColumns,
    pub series_name: Option<String>,
    pub series_index: Option<String>,
    pub tags: Vec<String>,
    pub publisher: Option<String>,
    pub comment: Option<String>,
}

} // verus!
