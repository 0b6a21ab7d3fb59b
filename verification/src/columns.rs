//! The columns of one row: each header with the row's cell under it.
//!
//! A mapping keeps the order of the spreadsheet. Where several columns share a
//! header, only the last of them stands, so a header occurs at most once.

use vstd::prelude::*;

verus! {

/// One column of a row.
#[derive(Debug, Clone, PartialEq, Eq)]
pub struct Column {
    pub header: String,
    pub value: String,
}

/// A column as plain character sequences.
pub struct ColumnView {
    pub header: Seq<char>,
    pub value: Seq<char>,
}

impl View for Column {
    type V = ColumnView;

    open spec fn view(&self) -> ColumnView {
        ColumnView { header: self.header@, value: self.value@ }
    }
}

impl DeepView for Column {
    type V = ColumnView;

    open spec fn deep_view(&self) -> ColumnView {
        self@
    }
}

/// The shorter of two lengths.
pub open spec fn shorter(a: nat, b: nat) -> nat {
    if a <= b {
        a
    } else {
        b
    }
}

/// Headers and cells paired by position, as far as both reach.
pub open spec fn paired(headers: Seq<Seq<char>>, cells: Seq<Seq<char>>) -> Seq<ColumnView> {
    Seq::new(
        shorter(headers.len(), cells.len()),
        |i: int| ColumnView { header: headers[i], value: cells[i] },
    )
}

/// A later column has the header of column `i`.
pub open spec fn is_overridden(cols: Seq<ColumnView>, i: int) -> bool {
    exists|j: int| i < j < cols.len() && #[trigger] cols[j].header == cols[i].header
}

/// The positions `0`, `1`, ... below `n`.
pub open spec fn positions(n: nat) -> Seq<int> {
    Seq::new(n, |i: int| i)
}

/// The positions of the columns that no later column overrides, ascending.
pub open spec fn standing_positions(cols: Seq<ColumnView>) -> Seq<int> {
    positions(cols.len()).filter(|i: int| !is_overridden(cols, i))
}

/// The columns that no later column overrides, in their order.
pub open spec fn standing(cols: Seq<ColumnView>) -> Seq<ColumnView> {
    standing_positions(cols).map_values(|i: int| cols[i])
}

/// No two columns share a header.
pub open spec fn distinct_headers(cols: Seq<ColumnView>) -> bool {
    forall|i: int, j: int|
        0 <= i < j < cols.len() ==> (#[trigger] cols[i]).header != (#[trigger] cols[j]).header
}

/// The positions below `n` that pass `keep` are below `n`, pass `keep`, and ascend.
proof fn lemma_kept_positions(n: nat, keep: spec_fn(int) -> bool)
    ensures
        forall|a: int|
            0 <= a < positions(n).filter(keep).len() ==> 0 <= (#[trigger] positions(n).filter(
                keep,
            )[a]) < n && keep(positions(n).filter(keep)[a]),
        forall|a: int, b: int|
            0 <= a < b < positions(n).filter(keep).len() ==> (#[trigger] positions(n).filter(
                keep,
            )[a]) < (#[trigger] positions(n).filter(keep)[b]),
    decreases n,
{
    reveal(Seq::filter);
    if n > 0 {
        let kept = positions(n).filter(keep);
        let sub = positions((n - 1) as nat).filter(keep);
        assert(positions(n).drop_last() =~= positions((n - 1) as nat));
        assert(positions(n).last() == n - 1);
        lemma_kept_positions((n - 1) as nat, keep);
        assert forall|a: int| 0 <= a < kept.len() implies 0 <= (#[trigger] kept[a]) < n && keep(
            kept[a],
        ) by {
            if a < sub.len() {
                assert(kept[a] == sub[a]);
            }
        }
        assert forall|a: int, b: int| 0 <= a < b < kept.len() implies (#[trigger] kept[a]) < (
        #[trigger] kept[b]) by {
            assert(kept[a] == sub[a]);
            if b < sub.len() {
                assert(kept[b] == sub[b]);
            }
        }
    }
}

/// Every header stands at most once among the standing columns.
pub proof fn lemma_standing_distinct(cols: Seq<ColumnView>)
    ensures
        distinct_headers(standing(cols)),
{
    let keep = |i: int| !is_overridden(cols, i);
    lemma_kept_positions(cols.len(), keep);
    let at = standing_positions(cols);
    assert forall|a: int, b: int| 0 <= a < b < standing(cols).len() implies (
    #[trigger] standing(cols)[a]).header != (#[trigger] standing(cols)[b]).header by {
        assert(at[a] < at[b]);
        assert(keep(at[a]));
        if cols[at[b]].header == cols[at[a]].header {
            assert(is_overridden(cols, at[a]));
        }
    }
}

/// Every header of the row's columns still stands, with the cell of its last column.
pub proof fn lemma_standing_complete(cols: Seq<ColumnView>, i: int)
    requires
        0 <= i < cols.len(),
    ensures
        exists|a: int|
            0 <= a < standing(cols).len() && (#[trigger] standing(cols)[a]).header
                == cols[i].header,
        !is_overridden(cols, i) ==> standing(cols).contains(cols[i]),
    decreases cols.len() - i,
{
    let keep = |p: int| !is_overridden(cols, p);
    let all = positions(cols.len());
    if is_overridden(cols, i) {
        let j = choose|j: int| i < j < cols.len() && #[trigger] cols[j].header == cols[i].header;
        lemma_standing_complete(cols, j);
    } else {
        assert(all[i] == i);
        all.lemma_filter_contains(keep, i);
        let a = choose|a: int|
            0 <= a < standing_positions(cols).len() && standing_positions(cols)[a] == i;
        assert(standing(cols)[a] == cols[i]);
    }
}

/// The columns of one row, in the order of the spreadsheet, each header once.
#[derive(Debug)]
pub struct ColumnMapping {
    columns: Vec<Column>,
}

impl View for ColumnMapping {
    type V = Seq<ColumnView>;

    closed spec fn view(&self) -> Seq<ColumnView> {
        self.columns.deep_view()
    }
}

impl ColumnMapping {
    #[verifier::type_invariant]
    spec fn well_formed(&self) -> bool {
        distinct_headers(self.columns.deep_view())
    }

    /// Pairs the header row with the cells of one row, position by position and
    /// as far as both reach. Of columns that share a header only the last stands.
    pub fn from_row(headers: &Vec<String>, cells: &Vec<String>) -> (mapping: ColumnMapping)
        ensures
            mapping@ == standing(paired(headers.deep_view(), cells.deep_view())),
    {
        let n = if headers.len() <= cells.len() {
            headers.len()
        } else {
            cells.len()
        };
        let ghost cols = paired(headers.deep_view(), cells.deep_view());
        let ghost keep = |i: int| !is_overridden(cols, i);
        let ghost at = |i: int| cols[i];
        let ghost all = positions(cols.len());
        let mut columns: Vec<Column> = Vec::new();
        let mut i: usize = 0;
        proof {
            reveal(Seq::filter);
            assert(all.take(0) =~= Seq::empty());
            assert(columns.deep_view() =~= all.take(0).filter(keep).map_values(at));
        }
        while i < n
            invariant
                i <= n,
                n == cols.len(),
                n <= headers.len(),
                n <= cells.len(),
                cols == paired(headers.deep_view(), cells.deep_view()),
                keep == |i: int| !is_overridden(cols, i),
                at == |i: int| cols[i],
                all == positions(cols.len()),
                columns.deep_view() == all.take(i as int).filter(keep).map_values(at),
            decreases n - i,
        {
            let mut later: usize = i + 1;
            let mut overridden = false;
            while later < n && !overridden
                invariant
                    i < later <= n,
                    n == cols.len(),
                    n <= headers.len(),
                    cols == paired(headers.deep_view(), cells.deep_view()),
                    overridden ==> is_overridden(cols, i as int),
                    !overridden ==> forall|j: int|
                        i < j < later ==> (#[trigger] cols[j]).header != cols[i as int].header,
                decreases n - later + (if overridden { 0int } else { 1int }),
            {
                if headers[later] == headers[i] {
                    assert(cols[later as int].header == cols[i as int].header);
                    overridden = true;
                } else {
                    later += 1;
                }
            }
            let ghost before = columns.deep_view();
            proof {
                all.take(i as int).lemma_filter_push(i as int, keep);
                assert(all.take(i as int).push(i as int) =~= all.take(i + 1));
            }
            if !overridden {
                let column = Column { header: headers[i].clone(), value: cells[i].clone() };
                columns.push(column);
                assert(columns.deep_view() =~= before.push(cols[i as int]));
                assert(all.take(i as int).filter(keep).push(i as int).map_values(at)
                    =~= all.take(i as int).filter(keep).map_values(at).push(cols[i as int]));
            }
            i += 1;
        }
        proof {
            assert(all.take(n as int) =~= all);
            lemma_standing_distinct(cols);
        }
        ColumnMapping { columns }
    }

    /// The columns, in their order.
    pub fn columns(&self) -> (columns: &Vec<Column>)
        ensures
            columns.deep_view() == self@,
            distinct_headers(self@),
    {
        proof {
            use_type_invariant(self);
        }
        &self.columns
    }

    /// The number of columns.
    pub fn len(&self) -> (n: usize)
        ensures
            n == self@.len(),
    {
        self.columns.len()
    }
}

} // verus!
