//! Finding the column that names the files of a row.
//!
//! The header of that column begins with `filename`, `file name` or
//! `bitstream`. A header of the first kind is preferred to one of the second,
//! and one of the second to one of the third; among columns of one kind the
//! leftmost is taken.

use vstd::prelude::*;
use crate::columns::{Column, ColumnMapping, ColumnView};
use crate::entry::{is_metadata_header, METADATA_PREFIX};
use crate::text::starts_with;

verus! {

/// The preferred beginning of the header of the file name column.
pub const FILENAME_PREFIX: &'static str = "filename";

/// The second beginning that marks the file name column.
pub const FILE_NAME_PREFIX: &'static str = "file name";

/// The third beginning that marks the file name column.
pub const BITSTREAM_PREFIX: &'static str = "bitstream";

/// The header of column `i` begins with `prefix`.
pub open spec fn header_begins(cols: Seq<ColumnView>, prefix: Seq<char>, i: int) -> bool {
    0 <= i < cols.len() && prefix.is_prefix_of(cols[i].header)
}

/// Column `i` is the leftmost whose header begins with `prefix`.
pub open spec fn is_first_with_prefix(cols: Seq<ColumnView>, prefix: Seq<char>, i: int) -> bool {
    &&& header_begins(cols, prefix, i)
    &&& forall|j: int| 0 <= j < i ==> !header_begins(cols, prefix, j)
}

/// The position of the leftmost column whose header begins with `prefix`.
pub open spec fn first_with_prefix(cols: Seq<ColumnView>, prefix: Seq<char>) -> Option<int> {
    if exists|i: int| is_first_with_prefix(cols, prefix, i) {
        Some(choose|i: int| is_first_with_prefix(cols, prefix, i))
    } else {
        None
    }
}

/// The position of the file name column of a row, if it has one.
pub open spec fn filename_column(cols: Seq<ColumnView>) -> Option<int> {
    if first_with_prefix(cols, FILENAME_PREFIX@) is Some {
        first_with_prefix(cols, FILENAME_PREFIX@)
    } else if first_with_prefix(cols, FILE_NAME_PREFIX@) is Some {
        first_with_prefix(cols, FILE_NAME_PREFIX@)
    } else {
        first_with_prefix(cols, BITSTREAM_PREFIX@)
    }
}

/// The header of column `i` begins with one of the three marks.
pub open spec fn is_filename_header(cols: Seq<ColumnView>, i: int) -> bool {
    ||| header_begins(cols, FILENAME_PREFIX@, i)
    ||| header_begins(cols, FILE_NAME_PREFIX@, i)
    ||| header_begins(cols, BITSTREAM_PREFIX@, i)
}

/// What a column is read as, by its header.
#[derive(Debug, Clone, Copy, PartialEq, Eq, Structural)]
pub enum HeaderKind {
    /// The header begins with `dc.`: the column holds metadata.
    Metadata,
    /// The header begins with `filename`, `file name` or `bitstream`: the
    /// column may name the files of the row.
    FileName,
    /// Any other header: the column is passed over.
    Ignored,
}

/// The kind of a header.
pub open spec fn kind_of(header: Seq<char>) -> HeaderKind {
    if is_metadata_header(header) {
        HeaderKind::Metadata
    } else if FILENAME_PREFIX@.is_prefix_of(header) || FILE_NAME_PREFIX@.is_prefix_of(header)
        || BITSTREAM_PREFIX@.is_prefix_of(header) {
        HeaderKind::FileName
    } else {
        HeaderKind::Ignored
    }
}

/// Tells what a column with this header is read as.
pub fn classify_header(header: &str) -> (kind: HeaderKind)
    ensures
        kind == kind_of(header@),
{
    if starts_with(header, METADATA_PREFIX) {
        HeaderKind::Metadata
    } else if starts_with(header, FILENAME_PREFIX) || starts_with(header, FILE_NAME_PREFIX)
        || starts_with(header, BITSTREAM_PREFIX) {
        HeaderKind::FileName
    } else {
        HeaderKind::Ignored
    }
}

/// No header is read both as metadata and as a file name header.
pub proof fn lemma_kinds_apart(header: Seq<char>)
    ensures
        is_metadata_header(header) ==> !(FILENAME_PREFIX@.is_prefix_of(header)
            || FILE_NAME_PREFIX@.is_prefix_of(header) || BITSTREAM_PREFIX@.is_prefix_of(header)),
{
    reveal_strlit("dc.");
    reveal_strlit("filename");
    reveal_strlit("file name");
    reveal_strlit("bitstream");
    if is_metadata_header(header) {
        assert(header[0] == METADATA_PREFIX@[0]);
    }
}

/// The leftmost column with `prefix` is the one that `first_with_prefix` gives.
pub proof fn lemma_first_with_prefix_is(cols: Seq<ColumnView>, prefix: Seq<char>, i: int)
    requires
        is_first_with_prefix(cols, prefix, i),
    ensures
        first_with_prefix(cols, prefix) == Some(i),
{
    let k = choose|k: int| is_first_with_prefix(cols, prefix, k);
    if k < i {
        assert(!header_begins(cols, prefix, k));
    }
    if i < k {
        assert(!header_begins(cols, prefix, i));
    }
}

/// Where some header begins with `prefix`, there is a leftmost one.
pub proof fn lemma_prefix_has_first(cols: Seq<ColumnView>, prefix: Seq<char>, i: int)
    requires
        header_begins(cols, prefix, i),
    ensures
        first_with_prefix(cols, prefix) is Some,
    decreases i,
{
    if exists|j: int| 0 <= j < i && header_begins(cols, prefix, j) {
        let j = choose|j: int| 0 <= j < i && header_begins(cols, prefix, j);
        lemma_prefix_has_first(cols, prefix, j);
    } else {
        lemma_first_with_prefix_is(cols, prefix, i);
    }
}

/// A row has a file name column exactly when one of its headers begins with
/// one of the three marks; the column chosen is then such a column.
pub proof fn lemma_filename_column(cols: Seq<ColumnView>)
    ensures
        filename_column(cols) is Some <==> exists|i: int| is_filename_header(cols, i),
        filename_column(cols) matches Some(k) ==> is_filename_header(cols, k),
{
    if exists|i: int| is_filename_header(cols, i) {
        let i = choose|i: int| is_filename_header(cols, i);
        if header_begins(cols, FILENAME_PREFIX@, i) {
            lemma_prefix_has_first(cols, FILENAME_PREFIX@, i);
        } else if header_begins(cols, FILE_NAME_PREFIX@, i) {
            lemma_prefix_has_first(cols, FILE_NAME_PREFIX@, i);
        } else {
            lemma_prefix_has_first(cols, BITSTREAM_PREFIX@, i);
        }
    }
    if filename_column(cols) is Some {
        let k = filename_column(cols)->0;
        assert(is_filename_header(cols, k));
    }
}

/// The leftmost column whose header begins with `prefix`.
fn find_with_prefix(columns: &Vec<Column>, prefix: &str) -> (found: Option<usize>)
    ensures
        match found {
            Some(i) => first_with_prefix(columns.deep_view(), prefix@) == Some(i as int),
            None => first_with_prefix(columns.deep_view(), prefix@) is None,
        },
{
    let ghost cols = columns.deep_view();
    let mut i: usize = 0;
    while i < columns.len()
        invariant
            i <= columns.len(),
            cols == columns.deep_view(),
            forall|j: int| 0 <= j < i ==> !header_begins(cols, prefix@, j),
        decreases columns.len() - i,
    {
        if starts_with(columns[i].header.as_str(), prefix) {
            proof {
                lemma_first_with_prefix_is(cols, prefix@, i as int);
            }
            return Some(i);
        }
        i += 1;
    }
    None
}

/// The header and the cell of the row's file name column; `None` where no
/// header begins with `filename`, `file name` or `bitstream`.
pub fn get_filename_tuple<'a>(map: &'a ColumnMapping) -> (found: Option<(&'a String, &'a String)>)
    ensures
        match filename_column(map@) {
            Some(i) => found matches Some(pair) && pair.0@ == map@[i].header && pair.1@
                == map@[i].value,
            None => found is None,
        },
{
    let columns = map.columns();
    let by_first = find_with_prefix(columns, FILENAME_PREFIX);
    let found = if by_first.is_some() {
        by_first
    } else {
        let by_second = find_with_prefix(columns, FILE_NAME_PREFIX);
        if by_second.is_some() {
            by_second
        } else {
            find_with_prefix(columns, BITSTREAM_PREFIX)
        }
    };
    match found {
        Some(i) => Some((&columns[i].header, &columns[i].value)),
        None => None,
    }
}

} // verus!
