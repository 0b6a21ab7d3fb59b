//! What goes into the archive of the output folder.
//!
//! Every regular file under the output folder that could be read is packed,
//! under its path relative to that folder and in the order in which the files
//! were found. What is no regular file, has no path that can be written as
//! text, or could not be read is passed over without complaint.

use vstd::prelude::*;

verus! {

/// The name of the archive, which lies beside the output folder.
pub const ARCHIVE_FILE: &'static str = "SimpleArchiveFormat.zip";

/// One entry found under the output folder.
#[derive(Debug, Clone, PartialEq, Eq)]
pub struct FoundFile {
    /// The path relative to the output folder, where it can be written as text.
    pub name: Option<String>,
    /// Whether the entry is a regular file.
    pub is_file: bool,
    /// The bytes of the file, where it could be read.
    pub contents: Option<Vec<u8>>,
}

/// A found entry as plain values.
pub struct FoundFileView {
    pub name: Option<Seq<char>>,
    pub is_file: bool,
    pub contents: Option<Seq<u8>>,
}

impl View for FoundFile {
    type V = FoundFileView;

    open spec fn view(&self) -> FoundFileView {
        FoundFileView {
            name: match self.name {
                Some(name) => Some(name@),
                None => None,
            },
            is_file: self.is_file,
            contents: match self.contents {
                Some(bytes) => Some(bytes@),
                None => None,
            },
        }
    }
}

impl DeepView for FoundFile {
    type V = FoundFileView;

    open spec fn deep_view(&self) -> FoundFileView {
        self@
    }
}

/// One entry of the archive: a name and the bytes stored under it.
#[derive(Debug, Clone, PartialEq, Eq)]
pub struct ArchiveEntry {
    pub name: String,
    pub bytes: Vec<u8>,
}

/// An archive entry as plain values.
pub struct ArchiveEntryView {
    pub name: Seq<char>,
    pub bytes: Seq<u8>,
}

impl View for ArchiveEntry {
    type V = ArchiveEntryView;

    open spec fn view(&self) -> ArchiveEntryView {
        ArchiveEntryView { name: self.name@, bytes: self.bytes@ }
    }
}

impl DeepView for ArchiveEntry {
    type V = ArchiveEntryView;

    open spec fn deep_view(&self) -> ArchiveEntryView {
        self@
    }
}

/// The entry is packed: a regular file with a name whose bytes were read.
pub open spec fn is_packed(found: FoundFileView) -> bool {
    found.is_file && found.name is Some && found.contents is Some
}

/// The archive entry of a found entry that is packed.
pub open spec fn packed(found: FoundFileView) -> ArchiveEntryView {
    ArchiveEntryView { name: found.name->0, bytes: found.contents->0 }
}

/// The entries of the archive for what was found, in the order of finding.
pub open spec fn entries_of(found: Seq<FoundFileView>) -> Seq<ArchiveEntryView> {
    found.filter(|f: FoundFileView| is_packed(f)).map_values(|f: FoundFileView| packed(f))
}

/// Every regular file that was read is in the archive under its own name
/// and with its own bytes.
pub proof fn lemma_readable_files_are_packed(found: Seq<FoundFileView>, i: int)
    requires
        0 <= i < found.len(),
        is_packed(found[i]),
    ensures
        entries_of(found).contains(packed(found[i])),
{
    let keep = |f: FoundFileView| is_packed(f);
    let kept = found.filter(keep);
    found.lemma_filter_contains(keep, i);
    let k = choose|k: int| 0 <= k < kept.len() && kept[k] == found[i];
    assert(entries_of(found)[k] == packed(found[i]));
}

/// The archive holds nothing but regular files that were read, and no more
/// entries than were found.
pub proof fn lemma_only_readable_files_are_packed(found: Seq<FoundFileView>, k: int)
    requires
        0 <= k < entries_of(found).len(),
    ensures
        entries_of(found).len() <= found.len(),
        exists|i: int|
            0 <= i < found.len() && is_packed(#[trigger] found[i]) && entries_of(found)[k]
                == packed(found[i]),
{
    let keep = |f: FoundFileView| is_packed(f);
    let kept = found.filter(keep);
    found.lemma_filter_len(keep);
    found.lemma_filter_pred(keep, k);
    assert(kept.contains(kept[k]));
    found.lemma_filter_contains_rev(keep, kept[k]);
    let i = choose|i: int| 0 <= i < found.len() && found[i] == kept[k];
    assert(is_packed(found[i]));
}

impl FoundFile {
    /// The archive entry of this file; `None` where the file is passed over.
    pub fn into_entry(self) -> (entry: Option<ArchiveEntry>)
        ensures
            match entry {
                Some(e) => is_packed(self@) && e@ == packed(self@),
                None => !is_packed(self@),
            },
    {
        if !self.is_file {
            return None;
        }
        match self.name {
            Some(name) => match self.contents {
                Some(bytes) => Some(ArchiveEntry { name, bytes }),
                None => None,
            },
            None => None,
        }
    }
}

/// The entries of the archive for what was found under the output folder.
pub fn archive_entries(found: Vec<FoundFile>) -> (entries: Vec<ArchiveEntry>)
    ensures
        entries.deep_view() == entries_of(found.deep_view()),
{
    let ghost list = found.deep_view();
    let ghost keep = |f: FoundFileView| is_packed(f);
    let ghost pack = |f: FoundFileView| packed(f);
    let ghost files = found@;
    let mut entries: Vec<ArchiveEntry> = Vec::new();
    proof {
        reveal(Seq::filter);
        assert(list.take(0) =~= Seq::empty());
        assert(entries.deep_view() =~= list.take(0).filter(keep).map_values(pack));
    }
    for file in it: found
        invariant
            it.seq() == files,
            list.len() == files.len(),
            forall|i: int| 0 <= i < files.len() ==> list[i] == (#[trigger] files[i])@,
            keep == |f: FoundFileView| is_packed(f),
            pack == |f: FoundFileView| packed(f),
            entries.deep_view() == list.take(it.index() as int).filter(keep).map_values(pack),
    {
        let ghost at = it.index() as int;
        let ghost before = entries.deep_view();
        proof {
            assert(file == files[at]);
            list.take(at).lemma_filter_push(list[at], keep);
            assert(list.take(at).push(list[at]) =~= list.take(at + 1));
        }
        match file.into_entry() {
            Some(entry) => {
                entries.push(entry);
                assert(entries.deep_view() =~= before.push(packed(list[at])));
                assert(list.take(at).filter(keep).push(list[at]).map_values(pack) =~= list.take(
                    at,
                ).filter(keep).map_values(pack).push(packed(list[at])));
            },
            None => {},
        }
    }
    assert(list.take(list.len() as int) =~= list);
    entries
}

} // verus!
