//! The conversion of a whole spreadsheet into items.
//!
//! Rows are converted one after another, in the order of the spreadsheet. The
//! first row that fails ends the conversion: the items of the rows before it
//! stand, and nothing is made of that row or of any row after it.

use vstd::prelude::*;
use handlebars::RenderError;
use crate::columns::{paired, standing, ColumnMapping, ColumnView};
use crate::item::{folder_name_of, item_of, plan_item, plan_of, Item, ItemView};
use crate::render::{document_of, render_metadata};
use crate::table::{csv_records, read_table, table_of, Table, TableView};
use crate::utils::{is_filename_header, lemma_filename_column};

verus! {

/// Why a conversion ended before the last row.
#[derive(Debug)]
pub enum ConvertError {
    /// A record of the spreadsheet could not be read.
    Table(csv::Error),
    /// No header of the row begins with `filename`, `file name` or `bitstream`.
    NoFilenameColumn,
    /// The metadata document of the row could not be rendered.
    Render(RenderError),
}

/// The kinds of failure.
#[derive(Debug, Clone, Copy, PartialEq, Eq, Structural)]
pub enum Failure {
    Table,
    NoFilenameColumn,
    Render,
}

impl View for ConvertError {
    type V = Failure;

    open spec fn view(&self) -> Failure {
        match self {
            ConvertError::Table(_) => Failure::Table,
            ConvertError::NoFilenameColumn => Failure::NoFilenameColumn,
            ConvertError::Render(_) => Failure::Render,
        }
    }
}

impl ConvertError {
    /// The kind of this failure.
    pub fn kind(&self) -> (kind: Failure)
        ensures
            kind == self@,
    {
        match self {
            ConvertError::Table(_) => Failure::Table,
            ConvertError::NoFilenameColumn => Failure::NoFilenameColumn,
            ConvertError::Render(_) => Failure::Render,
        }
    }
}

/// What a conversion made, and why it ended early where it did.
#[derive(Debug)]
pub struct Conversion {
    /// The items of the rows before the first failure, in the order of the rows.
    pub items: Vec<Item>,
    /// The failure that ended the conversion, where one did.
    pub failure: Option<ConvertError>,
}

/// A conversion as plain values.
pub struct ConversionView {
    pub items: Seq<ItemView>,
    pub failure: Option<Failure>,
}

impl View for Conversion {
    type V = ConversionView;

    open spec fn view(&self) -> ConversionView {
        ConversionView {
            items: self.items.deep_view(),
            failure: match self.failure {
                Some(e) => Some(e@),
                None => None,
            },
        }
    }
}

/// What becomes of the row with these columns at position `index`: its item,
/// or the failure that it ends with. A row without a file name column fails
/// before anything is rendered.
pub open spec fn item_outcome(index: nat, cols: Seq<ColumnView>) -> Result<ItemView, Failure> {
    match plan_of(index, cols) {
        None => Err(Failure::NoFilenameColumn),
        Some(plan) => match document_of(plan.metadata) {
            None => Err(Failure::Render),
            Some(document) => Ok(item_of(plan, document)),
        },
    }
}

/// What becomes of row `index` of a table with these headers.
pub open spec fn row_outcome(index: nat, headers: Seq<Seq<char>>, row: Seq<Seq<char>>) -> Result<
    ItemView,
    Failure,
> {
    item_outcome(index, standing(paired(headers, row)))
}

/// `c` is the conversion of `table`: it holds the item of every row before the
/// first row that fails; it ends with the failure of that row; where no row
/// fails, it ends with the failure of the table where that was not read to its
/// end, and else without failure.
pub open spec fn is_conversion(table: TableView, c: ConversionView) -> bool {
    &&& c.items.len() <= table.rows.len()
    &&& forall|k: int|
        0 <= k < c.items.len() ==> row_outcome(k as nat, table.headers, table.rows[k]) == Ok::<
            ItemView,
            Failure,
        >(#[trigger] c.items[k])
    &&& if c.items.len() < table.rows.len() {
        c.failure matches Some(f) && row_outcome(
            c.items.len(),
            table.headers,
            table.rows[c.items.len() as int],
        ) == Err::<ItemView, Failure>(f)
    } else if !table.complete {
        c.failure == Some(Failure::Table)
    } else {
        c.failure is None
    }
}

/// A row fails for want of a file name column exactly when none of its
/// headers begins with `filename`, `file name` or `bitstream`; no item is then
/// made of it.
pub proof fn lemma_no_filename_column(index: nat, cols: Seq<ColumnView>)
    ensures
        item_outcome(index, cols) == Err::<ItemView, Failure>(Failure::NoFilenameColumn)
            <==> forall|i: int| !is_filename_header(cols, i),
{
    lemma_filename_column(cols);
}

/// The item of every row lies in the folder named after the position of the
/// row, counted from zero.
pub proof fn lemma_item_folders(table: TableView, c: ConversionView)
    requires
        is_conversion(table, c),
    ensures
        forall|k: int|
            0 <= k < c.items.len() ==> (#[trigger] c.items[k]).folder_name == folder_name_of(
                k as nat,
            ),
{
    assert forall|k: int| 0 <= k < c.items.len() implies (#[trigger] c.items[k]).folder_name
        == folder_name_of(k as nat) by {
        assert(row_outcome(k as nat, table.headers, table.rows[k]) == Ok::<ItemView, Failure>(
            c.items[k],
        ));
    }
}

/// A table has one conversion only.
pub proof fn lemma_conversion_unique(table: TableView, a: ConversionView, b: ConversionView)
    requires
        is_conversion(table, a),
        is_conversion(table, b),
    ensures
        a == b,
{
    let outcome = |k: int| row_outcome(k as nat, table.headers, table.rows[k]);
    if a.items.len() < b.items.len() {
        let k = a.items.len() as int;
        assert(outcome(k) == Ok::<ItemView, Failure>(b.items[k]));
        assert(outcome(k) is Err);
    }
    if b.items.len() < a.items.len() {
        let k = b.items.len() as int;
        assert(outcome(k) == Ok::<ItemView, Failure>(a.items[k]));
        assert(outcome(k) is Err);
    }
    assert forall|k: int| 0 <= k < a.items.len() implies a.items[k] == b.items[k] by {
        assert(outcome(k) == Ok::<ItemView, Failure>(a.items[k]));
        assert(outcome(k) == Ok::<ItemView, Failure>(b.items[k]));
    }
    assert(a.items =~= b.items);
}

/// Makes the item of the row with these columns at position `index`, counted
/// from zero.
pub fn build_item(index: usize, map: &ColumnMapping) -> (outcome: Result<Item, ConvertError>)
    ensures
        match outcome {
            Ok(item) => item_outcome(index as nat, map@) == Ok::<ItemView, Failure>(item@),
            Err(e) => item_outcome(index as nat, map@) == Err::<ItemView, Failure>(e@),
        },
{
    match plan_item(index, map) {
        Err(_) => Err(ConvertError::NoFilenameColumn),
        Ok(plan) => match render_metadata(&plan.metadata) {
            Err(e) => Err(ConvertError::Render(e)),
            Ok(document) => Ok(plan.into_item(document)),
        },
    }
}

/// Converts the rows of a table that was read to its end.
pub fn convert_rows(headers: &Vec<String>, rows: &Vec<Vec<String>>) -> (c: Conversion)
    ensures
        is_conversion(
            TableView { headers: headers.deep_view(), rows: rows.deep_view(), complete: true },
            c@,
        ),
{
    let ghost table = TableView {
        headers: headers.deep_view(),
        rows: rows.deep_view(),
        complete: true,
    };
    let mut items: Vec<Item> = Vec::new();
    let mut failure: Option<ConvertError> = None;
    let mut i: usize = 0;
    while i < rows.len() && failure.is_none()
        invariant
            i <= rows.len(),
            table.headers == headers.deep_view(),
            table.rows == rows.deep_view(),
            failure is None ==> items.len() == i,
            failure is Some ==> items.len() < rows.len(),
            forall|k: int|
                0 <= k < items.len() ==> row_outcome(k as nat, table.headers, table.rows[k])
                    == Ok::<ItemView, Failure>(#[trigger] items.deep_view()[k]),
            failure matches Some(e) ==> row_outcome(
                items.len() as nat,
                table.headers,
                table.rows[items.len() as int],
            ) == Err::<ItemView, Failure>(e@),
        decreases rows.len() - i + (if failure is None { 1int } else { 0int }),
    {
        let map = ColumnMapping::from_row(headers, &rows[i]);
        match build_item(i, &map) {
            Ok(item) => {
                let ghost before = items.deep_view();
                items.push(item);
                assert(items.deep_view() =~= before.push(item@));
                i += 1;
            },
            Err(e) => {
                failure = Some(e);
            },
        }
    }
    Conversion { items, failure }
}

/// Converts a table. Where the table was not read to its end and every row
/// that was read gave its item, the conversion ends with the failure of the
/// table.
pub fn convert_table(table: Table) -> (c: Conversion)
    ensures
        is_conversion(table@, c@),
{
    let converted = convert_rows(&table.headers, &table.rows);
    match converted.failure {
        Some(e) => Conversion { items: converted.items, failure: Some(e) },
        None => match table.broken {
            Some(e) => Conversion { items: converted.items, failure: Some(ConvertError::Table(e)) },
            None => Conversion { items: converted.items, failure: None },
        },
    }
}

/// Converts the text of a spreadsheet of comma-separated values, whose first
/// record is the header row, into the items of its rows.
pub fn convert(text: &str) -> (c: Conversion)
    ensures
        is_conversion(table_of(csv_records(text@)), c@),
{
    convert_table(read_table(text))
}

} // verus!
