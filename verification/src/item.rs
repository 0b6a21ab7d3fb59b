//! Items: what is made for one row, and the steps that make it.
//!
//! An item is a folder named after the position of its row. It holds the
//! manifest `contents`, the metadata document `dublin_core.xml`, and a copy of
//! every file that the row names.

use vstd::prelude::*;
use crate::columns::{ColumnMapping, ColumnView};
use crate::entry::{DcEntry, DcEntryView};
use crate::manifest::{manifest_entries, manifest_of, manifest_text, record_of, FileEntry};
use crate::metadata::{metadata_entries, metadata_of};
use crate::utils::{filename_column, get_filename_tuple};

verus! {

/// The folder, beside the spreadsheet, that holds all items.
pub const OUTPUT_DIR: &'static str = "SimpleArchiveFormat";

/// The name of the manifest inside an item folder.
pub const MANIFEST_FILE: &'static str = "contents";

/// The name of the metadata document inside an item folder.
pub const METADATA_FILE: &'static str = "dublin_core.xml";

/// What the name of every item folder begins with.
pub const ITEM_PREFIX: &'static str = "item_";

/// The least number of digits in the name of an item folder.
pub const ITEM_DIGITS: usize = 5;

/// The character of a digit.
pub open spec fn digit_char(d: int) -> char {
    if d == 0 {
        '0'
    } else if d == 1 {
        '1'
    } else if d == 2 {
        '2'
    } else if d == 3 {
        '3'
    } else if d == 4 {
        '4'
    } else if d == 5 {
        '5'
    } else if d == 6 {
        '6'
    } else if d == 7 {
        '7'
    } else if d == 8 {
        '8'
    } else {
        '9'
    }
}

/// The digits of `n` in base ten, without leading zeros.
pub open spec fn decimal(n: nat) -> Seq<char>
    decreases n,
{
    if n < 10 {
        seq![digit_char(n as int)]
    } else {
        decimal(n / 10).push(digit_char((n % 10) as int))
    }
}

/// The digits with zeros in front until there are `width` of them; digits that
/// are already as many stay as they are.
pub open spec fn zero_padded(digits: Seq<char>, width: nat) -> Seq<char> {
    if digits.len() >= width {
        digits
    } else {
        Seq::new((width - digits.len()) as nat, |i: int| '0') + digits
    }
}

/// The name of the folder of the item of row `index`, counted from zero.
pub open spec fn folder_name_of(index: nat) -> Seq<char> {
    ITEM_PREFIX@ + zero_padded(decimal(index), ITEM_DIGITS as nat)
}

/// The numeric part of a folder name has at least five characters, and
/// exactly five for every row below one hundred thousand.
pub proof fn lemma_folder_name_len(index: nat)
    ensures
        folder_name_of(index).len() >= ITEM_PREFIX@.len() + ITEM_DIGITS,
        index < 100000 ==> folder_name_of(index).len() == ITEM_PREFIX@.len() + ITEM_DIGITS,
{
    reveal_with_fuel(decimal, 6);
}

/// The digit that a character writes; zero for any other character.
pub open spec fn digit_value(c: char) -> int {
    if c == '1' {
        1
    } else if c == '2' {
        2
    } else if c == '3' {
        3
    } else if c == '4' {
        4
    } else if c == '5' {
        5
    } else if c == '6' {
        6
    } else if c == '7' {
        7
    } else if c == '8' {
        8
    } else if c == '9' {
        9
    } else {
        0
    }
}

/// The number that digits write in base ten.
pub open spec fn number_of(digits: Seq<char>) -> int
    decreases digits.len(),
{
    if digits.len() == 0 {
        0
    } else {
        number_of(digits.drop_last()) * 10 + digit_value(digits.last())
    }
}

/// The digits of a number write that number.
pub proof fn lemma_decimal_writes(n: nat)
    ensures
        number_of(decimal(n)) == n,
    decreases n,
{
    if n < 10 {
        assert(decimal(n).drop_last() =~= Seq::<char>::empty());
        assert(number_of(decimal(n).drop_last()) == 0);
    } else {
        lemma_decimal_writes(n / 10);
        assert(decimal(n).drop_last() =~= decimal(n / 10));
    }
}

/// Zeros in front do not change the number that digits write.
pub proof fn lemma_zeros_in_front(digits: Seq<char>, width: nat)
    ensures
        number_of(zero_padded(digits, width)) == number_of(digits),
    decreases digits.len(), width,
{
    if digits.len() < width {
        let zeros = Seq::new((width - digits.len()) as nat, |i: int| '0');
        let padded = zeros + digits;
        if digits.len() == 0 {
            assert(padded =~= zeros);
            if width > 1 {
                lemma_zeros_in_front(digits, (width - 1) as nat);
                assert(padded.drop_last() =~= zero_padded(digits, (width - 1) as nat));
            } else {
                assert(padded.drop_last() =~= Seq::<char>::empty());
                assert(number_of(padded.drop_last()) == 0);
            }
        } else {
            lemma_zeros_in_front(digits.drop_last(), (width - 1) as nat);
            assert(padded.drop_last() =~= zero_padded(digits.drop_last(), (width - 1) as nat));
        }
    }
}

/// Different rows have different folders.
pub proof fn lemma_folders_apart(i: nat, j: nat)
    requires
        i != j,
    ensures
        folder_name_of(i) != folder_name_of(j),
{
    let a = zero_padded(decimal(i), ITEM_DIGITS as nat);
    let b = zero_padded(decimal(j), ITEM_DIGITS as nat);
    lemma_decimal_writes(i);
    lemma_decimal_writes(j);
    lemma_zeros_in_front(decimal(i), ITEM_DIGITS as nat);
    lemma_zeros_in_front(decimal(j), ITEM_DIGITS as nat);
    if folder_name_of(i) == folder_name_of(j) {
        let n = ITEM_PREFIX@.len() as int;
        assert((ITEM_PREFIX@ + a).skip(n) =~= a);
        assert((ITEM_PREFIX@ + b).skip(n) =~= b);
    }
}

/// A digit as a text.
fn digit_text(d: usize) -> (text: &'static str)
    requires
        d < 10,
    ensures
        text@ == seq![digit_char(d as int)],
{
    proof {
        reveal_strlit("0");
        reveal_strlit("1");
        reveal_strlit("2");
        reveal_strlit("3");
        reveal_strlit("4");
        reveal_strlit("5");
        reveal_strlit("6");
        reveal_strlit("7");
        reveal_strlit("8");
        reveal_strlit("9");
    }
    let text = if d == 0 {
        "0"
    } else if d == 1 {
        "1"
    } else if d == 2 {
        "2"
    } else if d == 3 {
        "3"
    } else if d == 4 {
        "4"
    } else if d == 5 {
        "5"
    } else if d == 6 {
        "6"
    } else if d == 7 {
        "7"
    } else if d == 8 {
        "8"
    } else {
        "9"
    };
    assert(text@ =~= seq![digit_char(d as int)]);
    text
}

/// The digits of `n` in base ten.
pub fn decimal_text(n: usize) -> (text: String)
    ensures
        text@ == decimal(n as nat),
    decreases n,
{
    if n < 10 {
        digit_text(n).to_owned()
    } else {
        let mut text = decimal_text(n / 10);
        text.append(digit_text(n % 10));
        text
    }
}

/// The name of the folder of the item of row `index`, counted from zero:
/// `item_` and the index in at least five digits.
pub fn item_folder_name(index: usize) -> (name: String)
    ensures
        name@ == folder_name_of(index as nat),
{
    let digits = decimal_text(index);
    let len = digits.as_str().unicode_len();
    let mut name = ITEM_PREFIX.to_owned();
    let mut have: usize = len;
    proof {
        reveal_strlit("0");
    }
    assert(name@ =~= ITEM_PREFIX@ + Seq::new(0, |i: int| '0'));
    while have < ITEM_DIGITS
        invariant
            len <= have,
            len < ITEM_DIGITS ==> have <= ITEM_DIGITS,
            len >= ITEM_DIGITS ==> have == len,
            "0"@ == seq!['0'],
            name@ == ITEM_PREFIX@ + Seq::new((have - len) as nat, |i: int| '0'),
        decreases ITEM_DIGITS - have,
    {
        name.append("0");
        have += 1;
        assert(name@ =~= ITEM_PREFIX@ + Seq::new((have - len) as nat, |i: int| '0'));
    }
    let ghost zeros = Seq::new((have - len) as nat, |i: int| '0');
    name.append(digits.as_str());
    proof {
        assert(name@ == ITEM_PREFIX@ + zeros + digits@);
        if len >= ITEM_DIGITS {
            assert(zeros + digits@ =~= digits@);
        }
        assert(zeros + digits@ == zero_padded(decimal(index as nat), ITEM_DIGITS as nat));
        assert(ITEM_PREFIX@ + zeros + digits@ =~= ITEM_PREFIX@ + (zeros + digits@));
    }
    name
}

/// What is known of an item before its metadata document is rendered.
#[derive(Debug)]
pub struct ItemPlan {
    /// The name of the item folder.
    pub folder_name: String,
    /// The files of the item, in the order of the file name cell.
    pub files: Vec<FileEntry>,
    /// The metadata entries of the item, none of them blank.
    pub metadata: Vec<DcEntry>,
}

/// An item plan as plain values.
pub struct ItemPlanView {
    pub folder_name: Seq<char>,
    pub files: Seq<Seq<Seq<char>>>,
    pub metadata: Seq<DcEntryView>,
}

impl View for ItemPlan {
    type V = ItemPlanView;

    open spec fn view(&self) -> ItemPlanView {
        ItemPlanView {
            folder_name: self.folder_name@,
            files: self.files.deep_view(),
            metadata: self.metadata.deep_view(),
        }
    }
}

/// Why no item can be made of a row.
#[derive(Debug, Clone, Copy, PartialEq, Eq, Structural)]
pub enum MalformedRow {
    /// No header begins with `filename`, `file name` or `bitstream`.
    NoFilenameColumn,
}

/// The plan of the item of row `index`, where the row has a file name column.
pub open spec fn plan_of(index: nat, cols: Seq<ColumnView>) -> Option<ItemPlanView> {
    match filename_column(cols) {
        Some(i) => Some(
            ItemPlanView {
                folder_name: folder_name_of(index),
                files: manifest_of(cols[i].header, cols[i].value),
                metadata: metadata_of(cols),
            },
        ),
        None => None,
    }
}

/// Plans the item of row `index`, counted from zero. A row without a file name
/// column is refused, and nothing is planned for it.
pub fn plan_item(index: usize, map: &ColumnMapping) -> (plan: Result<ItemPlan, MalformedRow>)
    ensures
        match plan {
            Ok(p) => plan_of(index as nat, map@) == Some(p@),
            Err(e) => plan_of(index as nat, map@) is None && e == MalformedRow::NoFilenameColumn,
        },
{
    match get_filename_tuple(map) {
        Some((header, cell)) => {
            let files = manifest_entries(header.as_str(), cell.as_str());
            let metadata = metadata_entries(map);
            let folder_name = item_folder_name(index);
            Ok(ItemPlan { folder_name, files, metadata })
        },
        None => Err(MalformedRow::NoFilenameColumn),
    }
}

/// One step in making an item. Names are those of entries of the item folder.
#[derive(Debug, Clone, PartialEq, Eq)]
pub enum Action {
    /// Create the item folder, with the folders above it.
    CreateFolder,
    /// Create the file, or empty it where it exists.
    CreateFile { name: String },
    /// Copy the file of this name from beside the spreadsheet into the item folder.
    CopyFile { name: String },
    /// Write the text at the end of the file.
    AppendText { name: String, text: String },
    /// Create the file with the text as its whole content.
    WriteFile { name: String, text: String },
}

/// A step as plain values.
pub enum ActionView {
    CreateFolder,
    CreateFile { name: Seq<char> },
    CopyFile { name: Seq<char> },
    AppendText { name: Seq<char>, text: Seq<char> },
    WriteFile { name: Seq<char>, text: Seq<char> },
}

impl View for Action {
    type V = ActionView;

    open spec fn view(&self) -> ActionView {
        match self {
            Action::CreateFolder => ActionView::CreateFolder,
            Action::CreateFile { name } => ActionView::CreateFile { name: name@ },
            Action::CopyFile { name } => ActionView::CopyFile { name: name@ },
            Action::AppendText { name, text } => ActionView::AppendText {
                name: name@,
                text: text@,
            },
            Action::WriteFile { name, text } => ActionView::WriteFile { name: name@, text: text@ },
        }
    }
}

impl DeepView for Action {
    type V = ActionView;

    open spec fn deep_view(&self) -> ActionView {
        self@
    }
}

/// The steps for the files of an item: for each file in turn its copy, then
/// its line at the end of the manifest.
pub open spec fn file_steps(files: Seq<Seq<Seq<char>>>) -> Seq<ActionView>
    decreases files.len(),
{
    if files.len() == 0 {
        Seq::empty()
    } else {
        file_steps(files.drop_last()).push(ActionView::CopyFile { name: files.last()[0] }).push(
            ActionView::AppendText { name: MANIFEST_FILE@, text: record_of(files.last()) },
        )
    }
}

/// The steps that make an item, in the order in which they are taken: the
/// folder, the empty manifest, the files with their manifest lines, and last
/// the metadata document.
pub open spec fn steps_of(files: Seq<Seq<Seq<char>>>, document: Seq<char>) -> Seq<ActionView> {
    seq![ActionView::CreateFolder, ActionView::CreateFile { name: MANIFEST_FILE@ }] + file_steps(
        files,
    ) + seq![ActionView::WriteFile { name: METADATA_FILE@, text: document }]
}

/// What a run of steps writes at the end of the file `name`, taken together.
pub open spec fn appended(steps: Seq<ActionView>, name: Seq<char>) -> Seq<char>
    decreases steps.len(),
{
    if steps.len() == 0 {
        Seq::empty()
    } else {
        match steps.last() {
            ActionView::AppendText { name: n, text } if n == name => appended(
                steps.drop_last(),
                name,
            ) + text,
            _ => appended(steps.drop_last(), name),
        }
    }
}

/// The steps for the files write the manifest of the files, line by line.
pub proof fn lemma_file_steps_write_manifest(files: Seq<Seq<Seq<char>>>)
    ensures
        appended(file_steps(files), MANIFEST_FILE@) == manifest_text(files),
        file_steps(files).len() == 2 * files.len(),
    decreases files.len(),
{
    if files.len() > 0 {
        let front = files.drop_last();
        lemma_file_steps_write_manifest(front);
        let copied = file_steps(front).push(ActionView::CopyFile { name: files.last()[0] });
        let steps = file_steps(files);
        assert(steps.drop_last() =~= copied);
        assert(copied.drop_last() =~= file_steps(front));
        assert(appended(copied, MANIFEST_FILE@) == appended(file_steps(front), MANIFEST_FILE@));
        assert(appended(steps, MANIFEST_FILE@) == appended(copied, MANIFEST_FILE@) + record_of(
            files.last(),
        ));
    }
}

/// What two runs of steps write at the end of a file, one run after the
/// other, is what the first writes and then what the second writes.
pub proof fn lemma_appended_in_turn(first: Seq<ActionView>, second: Seq<ActionView>, name: Seq<char>)
    ensures
        appended(first + second, name) == appended(first, name) + appended(second, name),
    decreases second.len(),
{
    if second.len() == 0 {
        assert(first + second =~= first);
        assert(appended(first, name) + Seq::<char>::empty() =~= appended(first, name));
    } else {
        let all = first + second;
        let front = second.drop_last();
        assert(all.drop_last() =~= first + front);
        assert(all.last() == second.last());
        lemma_appended_in_turn(first, front, name);
        match second.last() {
            ActionView::AppendText { name: n, text } if n == name => {
                assert(appended(first, name) + appended(front, name) + text =~= appended(
                    first,
                    name,
                ) + (appended(front, name) + text));
            },
            _ => {},
        }
    }
}

/// Taking the steps of an item leaves its manifest with the lines of its
/// files, one for each file and in the order of the files, and with nothing
/// else.
pub proof fn lemma_steps_write_manifest(files: Seq<Seq<Seq<char>>>, document: Seq<char>)
    ensures
        appended(steps_of(files, document), MANIFEST_FILE@) == manifest_text(files),
{
    let head = seq![ActionView::CreateFolder, ActionView::CreateFile { name: MANIFEST_FILE@ }];
    let tail = seq![ActionView::WriteFile { name: METADATA_FILE@, text: document }];
    lemma_file_steps_write_manifest(files);
    lemma_appended_in_turn(head + file_steps(files), tail, MANIFEST_FILE@);
    lemma_appended_in_turn(head, file_steps(files), MANIFEST_FILE@);
    assert(appended(head, MANIFEST_FILE@) =~= Seq::<char>::empty()) by {
        reveal_with_fuel(appended, 3);
        assert(head.drop_last() =~= seq![ActionView::CreateFolder]);
        assert(head.drop_last().drop_last() =~= Seq::<ActionView>::empty());
    }
    assert(appended(tail, MANIFEST_FILE@) =~= Seq::<char>::empty()) by {
        reveal_with_fuel(appended, 2);
        assert(tail.drop_last() =~= Seq::<ActionView>::empty());
    }
    assert(Seq::<char>::empty() + manifest_text(files) + Seq::<char>::empty() =~= manifest_text(
        files,
    ));
}

/// An item: its folder and the steps that make it.
#[derive(Debug)]
pub struct Item {
    /// The name of the item folder.
    pub folder_name: String,
    /// The steps, in the order in which they are taken.
    pub actions: Vec<Action>,
}

/// An item as plain values.
pub struct ItemView {
    pub folder_name: Seq<char>,
    pub actions: Seq<ActionView>,
}

impl View for Item {
    type V = ItemView;

    open spec fn view(&self) -> ItemView {
        ItemView { folder_name: self.folder_name@, actions: self.actions.deep_view() }
    }
}

impl DeepView for Item {
    type V = ItemView;

    open spec fn deep_view(&self) -> ItemView {
        self@
    }
}

/// The item that a plan and its rendered metadata document make.
pub open spec fn item_of(plan: ItemPlanView, document: Seq<char>) -> ItemView {
    ItemView { folder_name: plan.folder_name, actions: steps_of(plan.files, document) }
}

impl ItemPlan {
    /// The item of this plan, given its rendered metadata document.
    pub fn into_item(self, document: String) -> (item: Item)
        ensures
            item@ == item_of(self@, document@),
    {
        let ghost files = self.files.deep_view();
        let mut actions: Vec<Action> = Vec::new();
        actions.push(Action::CreateFolder);
        actions.push(Action::CreateFile { name: MANIFEST_FILE.to_owned() });
        let ghost head = actions.deep_view();
        assert(head =~= seq![
            ActionView::CreateFolder,
            ActionView::CreateFile { name: MANIFEST_FILE@ },
        ]);
        let mut i: usize = 0;
        assert(files.take(0) =~= Seq::empty());
        assert(head + file_steps(files.take(0)) =~= head);
        while i < self.files.len()
            invariant
                i <= self.files.len(),
                files == self.files.deep_view(),
                actions.deep_view() == head + file_steps(files.take(i as int)),
            decreases self.files.len() - i,
        {
            let ghost before = actions.deep_view();
            let file = &self.files[i];
            let copy = Action::CopyFile { name: file.name().clone() };
            let line = Action::AppendText { name: MANIFEST_FILE.to_owned(), text: file.record() };
            actions.push(copy);
            actions.push(line);
            proof {
                assert(files.take(i + 1).drop_last() =~= files.take(i as int));
                assert(files.take(i + 1).last() == files[i as int]);
                assert(actions.deep_view() =~= before.push(copy@).push(line@));
                assert(before.push(copy@).push(line@) =~= head + file_steps(files.take(i + 1)));
            }
            i += 1;
        }
        assert(files.take(self.files.len() as int) =~= files);
        let ghost listed = actions.deep_view();
        let last = Action::WriteFile { name: METADATA_FILE.to_owned(), text: document };
        actions.push(last);
        assert(actions.deep_view() =~= listed + seq![last@]);
        Item { folder_name: self.folder_name, actions }
    }
}

} // verus!
