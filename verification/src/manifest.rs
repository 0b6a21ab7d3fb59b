//! The manifest of an item: one line for each of its files.
//!
//! The cell of the file name column names the files of the row, separated by
//! `||`. Each of them may carry options of its own behind `__`; the header of
//! the column carries, behind `__`, the options that hold for every file of the
//! row. A manifest line is the file name, the file's own options and then the
//! options of the row, separated by tabs.

use vstd::prelude::*;
use crate::entry::VALUE_SEPARATOR;
use crate::text::{join, join_text, lemma_split_nonempty, split, split_text};

verus! {

/// Separates a name from its options, and one option from the next.
pub const OPTION_SEPARATOR: &'static str = "__";

/// Separates the fields of a manifest line.
pub const FIELD_SEPARATOR: &'static str = "\t";

/// Ends every manifest line.
pub const LINE_END: &'static str = "\r\n";

/// The options that the header of the file name column gives to every file of
/// the row: the parts of the header after the first.
pub open spec fn row_options(header: Seq<char>) -> Seq<Seq<char>> {
    split(header, OPTION_SEPARATOR@).skip(1)
}

/// The fields of one file: its name, its own options, then the options of the row.
pub open spec fn file_fields(entry: Seq<char>, options: Seq<Seq<char>>) -> Seq<Seq<char>> {
    split(entry, OPTION_SEPARATOR@) + options
}

/// The fields of every file that the cell names, in the order of the cell.
pub open spec fn manifest_of(header: Seq<char>, cell: Seq<char>) -> Seq<Seq<Seq<char>>> {
    split(cell, VALUE_SEPARATOR@).map_values(
        |entry: Seq<char>| file_fields(entry, row_options(header)),
    )
}

/// The fields joined by tabs.
pub open spec fn line_of(fields: Seq<Seq<char>>) -> Seq<char> {
    join(fields, FIELD_SEPARATOR@)
}

/// A manifest line as it is written: the fields joined by tabs, then the line end.
pub open spec fn record_of(fields: Seq<Seq<char>>) -> Seq<char> {
    line_of(fields) + LINE_END@
}

/// The whole manifest: the written lines of the files, one after another.
pub open spec fn manifest_text(files: Seq<Seq<Seq<char>>>) -> Seq<char>
    decreases files.len(),
{
    if files.len() == 0 {
        Seq::empty()
    } else {
        manifest_text(files.drop_last()) + record_of(files.last())
    }
}

/// Every file of a manifest has a name: its fields are never empty.
pub proof fn lemma_file_fields_nonempty(entry: Seq<char>, options: Seq<Seq<char>>)
    ensures
        file_fields(entry, options).len() >= 1,
        file_fields(entry, options)[0] == split(entry, OPTION_SEPARATOR@)[0],
{
    lemma_split_nonempty(entry, OPTION_SEPARATOR@);
}

/// A cell names at least one file, and as many files as it has parts.
pub proof fn lemma_manifest_len(header: Seq<char>, cell: Seq<char>)
    ensures
        manifest_of(header, cell).len() == split(cell, VALUE_SEPARATOR@).len(),
        manifest_of(header, cell).len() >= 1,
{
    lemma_split_nonempty(cell, VALUE_SEPARATOR@);
}

/// One file of an item, with the fields of its manifest line.
#[derive(Debug)]
pub struct FileEntry {
    fields: Vec<String>,
}

impl View for FileEntry {
    type V = Seq<Seq<char>>;

    closed spec fn view(&self) -> Seq<Seq<char>> {
        self.fields.deep_view()
    }
}

impl DeepView for FileEntry {
    type V = Seq<Seq<char>>;

    open spec fn deep_view(&self) -> Seq<Seq<char>> {
        self@
    }
}

impl FileEntry {
    #[verifier::type_invariant]
    spec fn well_formed(&self) -> bool {
        self.fields.len() >= 1
    }

    /// Reads one part of the file name cell, and adds the options of the row.
    pub fn parse(entry: &str, options: &Vec<String>) -> (file: FileEntry)
        ensures
            file@ == file_fields(entry@, options.deep_view()),
    {
        let mut fields = split_text(entry, OPTION_SEPARATOR);
        let ghost own = fields.deep_view();
        proof {
            lemma_split_nonempty(entry@, OPTION_SEPARATOR@);
        }
        let mut i: usize = 0;
        assert(options.deep_view().take(0) =~= Seq::empty());
        assert(own + Seq::<Seq<char>>::empty() =~= own);
        while i < options.len()
            invariant
                i <= options.len(),
                own.len() >= 1,
                fields.deep_view() == own + options.deep_view().take(i as int),
            decreases options.len() - i,
        {
            let ghost before = fields.deep_view();
            fields.push(options[i].clone());
            assert(fields.deep_view() =~= before.push(options[i as int]@));
            assert(options.deep_view().take(i + 1) =~= options.deep_view().take(i as int).push(
                options[i as int]@,
            ));
            i += 1;
        }
        assert(options.deep_view().take(options.len() as int) =~= options.deep_view());
        FileEntry { fields }
    }

    /// The fields of the manifest line, the file name first.
    pub fn fields(&self) -> (fields: &Vec<String>)
        ensures
            fields.deep_view() == self@,
            self@.len() >= 1,
    {
        proof {
            use_type_invariant(self);
        }
        &self.fields
    }

    /// The name of the file.
    pub fn name(&self) -> (name: &String)
        ensures
            self@.len() >= 1,
            name@ == self@[0],
    {
        proof {
            use_type_invariant(self);
        }
        &self.fields[0]
    }

    /// The manifest line without its end.
    pub fn line(&self) -> (line: String)
        ensures
            line@ == line_of(self@),
    {
        join_text(&self.fields, FIELD_SEPARATOR)
    }

    /// The manifest line as it is written, with its end.
    pub fn record(&self) -> (record: String)
        ensures
            record@ == record_of(self@),
    {
        let mut record = self.line();
        record.append(LINE_END);
        record
    }
}

/// The options that the header of the file name column gives to every file.
pub fn file_name_options(header: &str) -> (options: Vec<String>)
    ensures
        options.deep_view() == row_options(header@),
{
    let mut parts = split_text(header, OPTION_SEPARATOR);
    let ghost all = parts.deep_view();
    proof {
        lemma_split_nonempty(header@, OPTION_SEPARATOR@);
    }
    parts.remove(0);
    assert(parts.deep_view() =~= all.skip(1));
    parts
}

/// The files that the cell of the file name column names, each with the
/// fields of its manifest line, in the order of the cell.
pub fn manifest_entries(header: &str, cell: &str) -> (files: Vec<FileEntry>)
    ensures
        files.deep_view() == manifest_of(header@, cell@),
{
    let options = file_name_options(header);
    let entries = split_text(cell, VALUE_SEPARATOR);
    let ghost parts = entries.deep_view();
    let ghost fields_of = |entry: Seq<char>| file_fields(entry, row_options(header@));
    let mut files: Vec<FileEntry> = Vec::new();
    let mut i: usize = 0;
    assert(files.deep_view() =~= parts.take(0).map_values(fields_of));
    while i < entries.len()
        invariant
            i <= entries.len(),
            parts == entries.deep_view(),
            options.deep_view() == row_options(header@),
            fields_of == |entry: Seq<char>| file_fields(entry, row_options(header@)),
            files.deep_view() == parts.take(i as int).map_values(fields_of),
        decreases entries.len() - i,
    {
        let ghost before = files.deep_view();
        let file = FileEntry::parse(entries[i].as_str(), &options);
        files.push(file);
        assert(files.deep_view() =~= before.push(file@));
        assert(parts.take(i + 1).map_values(fields_of) =~= parts.take(i as int).map_values(
            fields_of,
        ).push(fields_of(parts[i as int])));
        i += 1;
    }
    assert(parts.take(entries.len() as int) =~= parts);
    files
}

/// The text of the whole manifest.
pub fn manifest_contents(files: &Vec<FileEntry>) -> (contents: String)
    ensures
        contents@ == manifest_text(files.deep_view()),
{
    let mut contents = String::new();
    let mut i: usize = 0;
    assert(files.deep_view().take(0) =~= Seq::empty());
    while i < files.len()
        invariant
            i <= files.len(),
            contents@ == manifest_text(files.deep_view().take(i as int)),
        decreases files.len() - i,
    {
        let record = files[i].record();
        assert(files.deep_view().take(i + 1).drop_last() =~= files.deep_view().take(i as int));
        contents.append(record.as_str());
        i += 1;
    }
    assert(files.deep_view().take(files.len() as int) =~= files.deep_view());
    contents
}

} // verus!
