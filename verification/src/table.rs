//! The spreadsheet as a table: a header row and the rows under it.

use vstd::prelude::*;

verus! {

/// The error of the reader, `csv::Error`. Nothing is known of what it holds.
#[verifier::external_type_specification]
#[verifier::external_body]
pub struct ExCsvError(csv::Error);

/// The records that the `csv` crate reads from a text of comma-separated
/// values, one after another and the header row among them as the first:
/// each record with its fields, `None` for a record that it reports an error
/// for.
pub uninterp spec fn csv_records(text: Seq<char>) -> Seq<Option<Seq<Seq<char>>>>;

/// Reads `text` with a `csv::Reader` whose builder is told only that the first
/// record is no header to be set aside, and collects what `Reader::records`
/// yields until it ends, every record as the list of its fields. The contract
/// claims only that these are the records that `csv_records` names for this
/// text, errors where it has `None`.
#[verifier::external_body]
fn read_records(text: &str) -> (records: Vec<Result<Vec<String>, csv::Error>>)
    ensures
        records@.len() == csv_records(text@).len(),
        forall|i: int|
            0 <= i < records@.len() ==> match #[trigger] records@[i] {
                Ok(fields) => csv_records(text@)[i] == Some(fields.deep_view()),
                Err(_) => csv_records(text@)[i] is None,
            },
{
    let mut reader = csv::ReaderBuilder::new().has_headers(false).from_reader(text.as_bytes());
    reader.records().map(
        |record| record.map(|fields| fields.iter().map(|field| field.to_string()).collect()),
    ).collect()
}

/// The records before the first one that could not be read.
pub open spec fn readable(records: Seq<Option<Seq<Seq<char>>>>) -> Seq<Seq<Seq<char>>>
    decreases records.len(),
{
    if records.len() == 0 || records.first() is None {
        Seq::empty()
    } else {
        seq![records.first()->0] + readable(records.drop_first())
    }
}

/// A table as far as it could be read.
#[derive(Debug)]
pub struct Table {
    /// The header row; empty where the text holds no record.
    pub headers: Vec<String>,
    /// The rows under the header row that were read, in their order.
    pub rows: Vec<Vec<String>>,
    /// The error that ended the reading, where one did.
    pub broken: Option<csv::Error>,
}

/// A table as plain values.
pub struct TableView {
    pub headers: Seq<Seq<char>>,
    pub rows: Seq<Seq<Seq<char>>>,
    pub complete: bool,
}

impl View for Table {
    type V = TableView;

    open spec fn view(&self) -> TableView {
        TableView {
            headers: self.headers.deep_view(),
            rows: self.rows.deep_view(),
            complete: self.broken is None,
        }
    }
}

/// The table that a list of records makes: the first record is the header
/// row, the others are the rows; reading ends at the first record that could
/// not be read, and the table is complete where there is none.
pub open spec fn table_of(records: Seq<Option<Seq<Seq<char>>>>) -> TableView {
    let read = readable(records);
    TableView {
        headers: if read.len() > 0 {
            read[0]
        } else {
            Seq::empty()
        },
        rows: if read.len() > 0 {
            read.skip(1)
        } else {
            Seq::empty()
        },
        complete: read.len() == records.len(),
    }
}

/// What was read is a beginning of the records, and reading went on as long
/// as the records could be read.
pub proof fn lemma_readable(records: Seq<Option<Seq<Seq<char>>>>)
    ensures
        readable(records).len() <= records.len(),
        forall|i: int|
            0 <= i < readable(records).len() ==> records[i] == Some(#[trigger] readable(records)[i]),
        readable(records).len() < records.len() ==> records[readable(records).len() as int] is None,
    decreases records.len(),
{
    if records.len() > 0 && records.first() is Some {
        let rest = records.drop_first();
        lemma_readable(rest);
        assert forall|i: int| 0 <= i < readable(records).len() implies records[i] == Some(
            #[trigger] readable(records)[i],
        ) by {
            if i > 0 {
                assert(readable(records)[i] == readable(rest)[i - 1]);
                assert(rest[i - 1] == records[i]);
            }
        }
        if readable(records).len() < records.len() {
            assert(rest[readable(rest).len() as int] == records[readable(records).len() as int]);
        }
    }
}

/// Reads a text of comma-separated values as a table. The first record is the
/// header row. Reading ends at the first record that cannot be read; what was
/// read before it stays in the table.
pub fn read_table(text: &str) -> (table: Table)
    ensures
        table@ == table_of(csv_records(text@)),
{
    let records = read_records(text);
    let ghost named = csv_records(text@);
    let ghost outcomes = records@;
    let mut read: Vec<Vec<String>> = Vec::new();
    let mut broken: Option<csv::Error> = None;
    proof {
        assert(named.skip(0) =~= named);
        assert(read.deep_view() =~= Seq::empty());
        assert(read.deep_view() + readable(named.skip(0)) =~= readable(named));
    }
    for record in it: records
        invariant
            it.seq() == outcomes,
            outcomes.len() == named.len(),
            forall|i: int|
                0 <= i < outcomes.len() ==> match #[trigger] outcomes[i] {
                    Ok(fields) => named[i] == Some(fields.deep_view()),
                    Err(_) => named[i] is None,
                },
            broken is None ==> read.deep_view() + readable(named.skip(it.index() as int))
                == readable(named),
            broken is None ==> read.len() == it.index(),
            broken is Some ==> read.deep_view() == readable(named) && read.len() < named.len(),
    {
        let ghost at = it.index() as int;
        let ghost before = read.deep_view();
        proof {
            assert(named.skip(at).first() == named[at]);
            assert(named.skip(at).drop_first() =~= named.skip(at + 1));
            assert(record == outcomes[at]);
        }
        if broken.is_none() {
            match record {
                Ok(fields) => {
                    read.push(fields);
                    assert(read.deep_view() =~= before.push(fields.deep_view()));
                    assert(before + (seq![fields.deep_view()] + readable(named.skip(at + 1)))
                        =~= before.push(fields.deep_view()) + readable(named.skip(at + 1)));
                },
                Err(e) => {
                    assert(before + Seq::<Seq<Seq<char>>>::empty() =~= before);
                    broken = Some(e);
                },
            }
        }
    }
    proof {
        if broken is None {
            assert(named.skip(named.len() as int) =~= Seq::empty());
            assert(read.deep_view() + Seq::<Seq<Seq<char>>>::empty() =~= read.deep_view());
        }
    }
    let ghost all = read.deep_view();
    assert(all == readable(named));
    assert(broken is None <==> all.len() == named.len());
    if read.len() == 0 {
        let headers: Vec<String> = Vec::new();
        assert(headers.deep_view() =~= Seq::empty());
        assert(read.deep_view() =~= Seq::empty());
        Table { headers, rows: read, broken }
    } else {
        let headers = read.remove(0);
        assert(read.deep_view() =~= all.skip(1));
        assert(headers.deep_view() == all[0]);
        Table { headers, rows: read, broken }
    }
}

} // verus!
