//! Metadata entries: one Dublin Core element with its qualifier and values.

use vstd::prelude::*;
use crate::text::{
    first_occurrence, lemma_occurrence_has_first, lemma_split_nonempty, occurs_at, split,
    split_text, starts_with,
};

verus! {

/// Separates the values inside one cell.
pub const VALUE_SEPARATOR: &'static str = "||";

/// Separates the parts of a metadata header.
pub const HEADER_SEPARATOR: &'static str = ".";

/// What the header of every metadata column begins with.
pub const METADATA_PREFIX: &'static str = "dc.";

/// The qualifier of an entry whose header names none.
pub const DEFAULT_QUALIFIER: &'static str = "none";

/// One metadata entry of an item.
#[derive(Debug, Clone, PartialEq, Eq)]
pub struct DcEntry {
    pub element: String,
    pub qualifier: String,
    pub values: Vec<String>,
}

/// A metadata entry as plain character sequences.
pub struct DcEntryView {
    pub element: Seq<char>,
    pub qualifier: Seq<char>,
    pub values: Seq<Seq<char>>,
}

impl View for DcEntry {
    type V = DcEntryView;

    open spec fn view(&self) -> DcEntryView {
        DcEntryView {
            element: self.element@,
            qualifier: self.qualifier@,
            values: self.values.deep_view(),
        }
    }
}

impl DeepView for DcEntry {
    type V = DcEntryView;

    open spec fn deep_view(&self) -> DcEntryView {
        self@
    }
}

/// A value that holds at least one character.
pub open spec fn is_real_value(value: Seq<char>) -> bool {
    value.len() > 0
}

/// The values without the empty ones, in their order.
pub open spec fn real_values_of(values: Seq<Seq<char>>) -> Seq<Seq<char>> {
    values.filter(|v: Seq<char>| is_real_value(v))
}

impl DcEntryView {
    /// The entry has no value, or only empty ones.
    pub open spec fn blank(self) -> bool {
        forall|i: int| 0 <= i < self.values.len() ==> !is_real_value(#[trigger] self.values[i])
    }

    /// The values that are written out: all but the empty ones.
    pub open spec fn real_values(self) -> Seq<Seq<char>> {
        real_values_of(self.values)
    }
}

/// The header belongs to a metadata column.
pub open spec fn is_metadata_header(header: Seq<char>) -> bool {
    METADATA_PREFIX@.is_prefix_of(header)
}

/// The entry that a metadata column stands for. The element is the second part
/// of the header; the qualifier is the third, or `none` where there are only two;
/// the values are the parts of the cell.
pub open spec fn entry_of(header: Seq<char>, cell: Seq<char>) -> DcEntryView {
    let parts = split(header, HEADER_SEPARATOR@);
    DcEntryView {
        element: parts[1],
        qualifier: if parts.len() > 2 {
            parts[2]
        } else {
            DEFAULT_QUALIFIER@
        },
        values: split(cell, VALUE_SEPARATOR@),
    }
}

/// The entry as it is written out: with the values that are not empty.
pub open spec fn written(entry: DcEntryView) -> DcEntryView {
    DcEntryView {
        element: entry.element,
        qualifier: entry.qualifier,
        values: entry.real_values(),
    }
}

/// An entry is blank exactly when none of its values is written out.
pub proof fn lemma_blank_iff_no_real_values(entry: DcEntryView)
    ensures
        entry.blank() <==> entry.real_values().len() == 0,
{
    lemma_real_values(entry.values);
    let kept = entry.real_values();
    if entry.blank() && kept.len() > 0 {
        assert(entry.values.contains(kept[0]));
    }
    if !entry.blank() {
        let i = choose|i: int| 0 <= i < entry.values.len() && is_real_value(entry.values[i]);
        assert(kept.contains(entry.values[i]));
    }
}

/// What is written out holds no empty value, holds every value that is not empty,
/// and holds nothing that was not among the values.
pub proof fn lemma_real_values(values: Seq<Seq<char>>)
    ensures
        forall|i: int|
            0 <= i < real_values_of(values).len() ==> is_real_value(
                #[trigger] real_values_of(values)[i],
            ) && values.contains(real_values_of(values)[i]),
        forall|i: int|
            0 <= i < values.len() && is_real_value(values[i]) ==> real_values_of(values).contains(
                #[trigger] values[i],
            ),
{
    let keep = |v: Seq<char>| is_real_value(v);
    let kept = real_values_of(values);
    assert forall|i: int| 0 <= i < kept.len() implies is_real_value(#[trigger] kept[i])
        && values.contains(kept[i]) by {
        values.lemma_filter_pred(keep, i);
        assert(kept.contains(kept[i]));
        values.lemma_filter_contains_rev(keep, kept[i]);
    }
    assert forall|i: int| 0 <= i < values.len() && is_real_value(values[i]) implies kept.contains(
        #[trigger] values[i],
    ) by {
        values.lemma_filter_contains(keep, i);
    }
}

/// The header of a metadata column always has an element part.
pub proof fn lemma_metadata_header_has_element(header: Seq<char>)
    requires
        is_metadata_header(header),
    ensures
        split(header, HEADER_SEPARATOR@).len() >= 2,
{
    reveal_strlit("dc.");
    reveal_strlit(".");
    let sep = HEADER_SEPARATOR@;
    assert(header[2] == METADATA_PREFIX@[2]);
    assert(header.subrange(2, 3) =~= sep);
    assert(occurs_at(header, sep, 2));
    lemma_occurrence_has_first(header, sep, 2);
    let k = first_occurrence(header, sep)->0;
    lemma_split_nonempty(header.skip(k + sep.len()), sep);
}

impl DcEntry {
    /// Tells whether the entry has no value, or only empty ones.
    pub fn blank(&self) -> (b: bool)
        ensures
            b == self@.blank(),
    {
        let mut i: usize = 0;
        while i < self.values.len()
            invariant
                i <= self.values.len(),
                forall|j: int| 0 <= j < i ==> !is_real_value(#[trigger] self@.values[j]),
            decreases self.values.len() - i,
        {
            if !self.values[i].as_str().is_empty() {
                assert(is_real_value(self@.values[i as int]));
                return false;
            }
            i += 1;
        }
        true
    }

    /// The values that are written out: all but the empty ones, in their order.
    pub fn real_values(&self) -> (kept: Vec<String>)
        ensures
            kept.deep_view() == self@.real_values(),
    {
        let mut kept: Vec<String> = Vec::new();
        let mut i: usize = 0;
        let ghost values = self.values.deep_view();
        proof {
            reveal(Seq::filter);
            assert(values.take(0) =~= Seq::empty());
            assert(kept.deep_view() =~= Seq::empty());
        }
        while i < self.values.len()
            invariant
                i <= self.values.len(),
                values == self.values.deep_view(),
                kept.deep_view() == real_values_of(values.take(i as int)),
            decreases self.values.len() - i,
        {
            let ghost before = kept.deep_view();
            proof {
                let pred = |v: Seq<char>| is_real_value(v);
                values.take(i as int).lemma_filter_push(values[i as int], pred);
                assert(values.take(i as int).push(values[i as int]) =~= values.take(i + 1));
            }
            if !self.values[i].as_str().is_empty() {
                kept.push(self.values[i].clone());
                assert(kept.deep_view() =~= before.push(values[i as int]));
            }
            i += 1;
        }
        assert(values.take(self.values.len() as int) =~= values);
        kept
    }

    /// The entry as it is written out: with the values that are not empty.
    pub fn to_record(&self) -> (record: DcEntry)
        ensures
            record@ == written(self@),
    {
        DcEntry {
            element: self.element.clone(),
            qualifier: self.qualifier.clone(),
            values: self.real_values(),
        }
    }

    /// Reads one column as a metadata entry: `None` where the header is not
    /// that of a metadata column, else the entry it stands for.
    pub fn from_column(header: &str, cell: &str) -> (entry: Option<DcEntry>)
        ensures
            match entry {
                Some(e) => is_metadata_header(header@) && e@ == entry_of(header@, cell@),
                None => !is_metadata_header(header@),
            },
    {
        if !starts_with(header, METADATA_PREFIX) {
            return None;
        }
        let parts = split_text(header, HEADER_SEPARATOR);
        proof {
            lemma_metadata_header_has_element(header@);
        }
        let element = parts[1].clone();
        let qualifier = if parts.len() > 2 {
            parts[2].clone()
        } else {
            DEFAULT_QUALIFIER.to_owned()
        };
        let values = split_text(cell, VALUE_SEPARATOR);
        Some(DcEntry { element, qualifier, values })
    }
}

} // verus!
