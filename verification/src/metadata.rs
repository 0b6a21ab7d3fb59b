//! The metadata of a row: its entries, and the records that are written out.
//!
//! Every column whose header begins with `dc.` stands for one entry. An entry
//! without any value that is not empty is blank and is left out. Of the
//! entries that are kept, only the values that are not empty are written out.

use vstd::prelude::*;
use crate::columns::{ColumnMapping, ColumnView};
use crate::entry::{
    entry_of, is_metadata_header, is_real_value, lemma_blank_iff_no_real_values,
    lemma_real_values, written, DcEntry, DcEntryView,
};

verus! {

/// The column stands for an entry that is kept.
pub open spec fn is_kept(column: ColumnView) -> bool {
    is_metadata_header(column.header) && !entry_of(column.header, column.value).blank()
}

/// The entries of a row: one for each metadata column whose entry is not
/// blank, in the order of the columns.
pub open spec fn metadata_of(cols: Seq<ColumnView>) -> Seq<DcEntryView> {
    cols.filter(|c: ColumnView| is_kept(c)).map_values(
        |c: ColumnView| entry_of(c.header, c.value),
    )
}

/// The records that are written out for a list of entries: the entries that
/// are not blank, in their order, each as it is written out.
pub open spec fn records_of(entries: Seq<DcEntryView>) -> Seq<DcEntryView> {
    entries.filter(|e: DcEntryView| !e.blank()).map_values(|e: DcEntryView| written(e))
}

/// A blank entry leaves no record, and an entry that is not blank leaves
/// exactly its values that are not empty: every record has at least one value,
/// none of its values is empty, and it is what some entry of the list, not a
/// blank one, is written out as.
pub proof fn lemma_records_hold_real_values(entries: Seq<DcEntryView>)
    ensures
        forall|i: int|
            0 <= i < records_of(entries).len() ==> {
                let record = #[trigger] records_of(entries)[i];
                &&& record.values.len() > 0
                &&& forall|k: int|
                    0 <= k < record.values.len() ==> is_real_value(#[trigger] record.values[k])
                &&& exists|j: int|
                    0 <= j < entries.len() && !(#[trigger] entries[j]).blank() && record
                        == written(entries[j])
            },
{
    let keep = |e: DcEntryView| !e.blank();
    let kept = entries.filter(keep);
    assert forall|i: int| 0 <= i < records_of(entries).len() implies {
        let record = #[trigger] records_of(entries)[i];
        &&& record.values.len() > 0
        &&& forall|k: int|
            0 <= k < record.values.len() ==> is_real_value(#[trigger] record.values[k])
        &&& exists|j: int|
            0 <= j < entries.len() && !(#[trigger] entries[j]).blank() && record == written(
                entries[j],
            )
    } by {
        let record = records_of(entries)[i];
        let source = kept[i];
        entries.lemma_filter_pred(keep, i);
        assert(record == written(source));
        lemma_blank_iff_no_real_values(source);
        lemma_real_values(source.values);
        assert(kept.contains(source));
        entries.lemma_filter_contains_rev(keep, source);
    }
}

/// Every entry that is not blank leaves its record.
pub proof fn lemma_records_complete(entries: Seq<DcEntryView>, j: int)
    requires
        0 <= j < entries.len(),
        !entries[j].blank(),
    ensures
        records_of(entries).contains(written(entries[j])),
{
    let keep = |e: DcEntryView| !e.blank();
    let kept = entries.filter(keep);
    entries.lemma_filter_contains(keep, j);
    let i = choose|i: int| 0 <= i < kept.len() && kept[i] == entries[j];
    assert(records_of(entries)[i] == written(entries[j]));
}

/// The entries of a row: one for each metadata column whose entry is not
/// blank, in the order of the columns.
pub fn metadata_entries(map: &ColumnMapping) -> (entries: Vec<DcEntry>)
    ensures
        entries.deep_view() == metadata_of(map@),
{
    let columns = map.columns();
    let ghost cols = columns.deep_view();
    let ghost keep = |c: ColumnView| is_kept(c);
    let ghost entry = |c: ColumnView| entry_of(c.header, c.value);
    let mut entries: Vec<DcEntry> = Vec::new();
    let mut i: usize = 0;
    proof {
        reveal(Seq::filter);
        assert(cols.take(0) =~= Seq::empty());
        assert(entries.deep_view() =~= cols.take(0).filter(keep).map_values(entry));
    }
    while i < columns.len()
        invariant
            i <= columns.len(),
            cols == columns.deep_view(),
            keep == |c: ColumnView| is_kept(c),
            entry == |c: ColumnView| entry_of(c.header, c.value),
            entries.deep_view() == cols.take(i as int).filter(keep).map_values(entry),
        decreases columns.len() - i,
    {
        let ghost before = entries.deep_view();
        proof {
            cols.take(i as int).lemma_filter_push(cols[i as int], keep);
            assert(cols.take(i as int).push(cols[i as int]) =~= cols.take(i + 1));
        }
        let column = &columns[i];
        match DcEntry::from_column(column.header.as_str(), column.value.as_str()) {
            Some(e) => {
                if !e.blank() {
                    entries.push(e);
                    assert(entries.deep_view() =~= before.push(entry(cols[i as int])));
                    assert(cols.take(i as int).filter(keep).push(cols[i as int]).map_values(entry)
                        =~= cols.take(i as int).filter(keep).map_values(entry).push(
                        entry(cols[i as int]),
                    ));
                }
            },
            None => {},
        }
        i += 1;
    }
    assert(cols.take(columns.len() as int) =~= cols);
    entries
}

/// The records that are written out for a list of entries: the entries that
/// are not blank, in their order, each with its values that are not empty.
pub fn render_records(entries: &Vec<DcEntry>) -> (records: Vec<DcEntry>)
    ensures
        records.deep_view() == records_of(entries.deep_view()),
{
    let ghost list = entries.deep_view();
    let ghost keep = |e: DcEntryView| !e.blank();
    let ghost out = |e: DcEntryView| written(e);
    let mut records: Vec<DcEntry> = Vec::new();
    let mut i: usize = 0;
    proof {
        reveal(Seq::filter);
        assert(list.take(0) =~= Seq::empty());
        assert(records.deep_view() =~= list.take(0).filter(keep).map_values(out));
    }
    while i < entries.len()
        invariant
            i <= entries.len(),
            list == entries.deep_view(),
            keep == |e: DcEntryView| !e.blank(),
            out == |e: DcEntryView| written(e),
            records.deep_view() == list.take(i as int).filter(keep).map_values(out),
        decreases entries.len() - i,
    {
        let ghost before = records.deep_view();
        proof {
            list.take(i as int).lemma_filter_push(list[i as int], keep);
            assert(list.take(i as int).push(list[i as int]) =~= list.take(i + 1));
        }
        if !entries[i].blank() {
            let record = entries[i].to_record();
            records.push(record);
            assert(records.deep_view() =~= before.push(written(list[i as int])));
            assert(list.take(i as int).filter(keep).push(list[i as int]).map_values(out)
                =~= list.take(i as int).filter(keep).map_values(out).push(written(list[i as int])));
        }
        i += 1;
    }
    assert(list.take(entries.len() as int) =~= list);
    records
}

} // verus!
