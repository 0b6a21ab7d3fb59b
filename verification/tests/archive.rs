use saf_builder::archive::{archive_entries, ArchiveEntry, FoundFile, ARCHIVE_FILE};
use saf_builder::item::OUTPUT_DIR;

fn found(name: Option<&str>, is_file: bool, contents: Option<&[u8]>) -> FoundFile {
    FoundFile {
        name: name.map(|n| n.to_string()),
        is_file,
        contents: contents.map(|c| c.to_vec()),
    }
}

fn entry(name: &str, bytes: &[u8]) -> ArchiveEntry {
    ArchiveEntry { name: name.to_string(), bytes: bytes.to_vec() }
}

#[test]
fn regular_file_that_was_read_is_packed() {
    let file = found(Some("item_00000/contents"), true, Some(b"a.pdf\r\n"));
    assert_eq!(file.into_entry(), Some(entry("item_00000/contents", b"a.pdf\r\n")));
}

#[test]
fn empty_file_is_packed() {
    let file = found(Some("item_00000/contents"), true, Some(b""));
    assert_eq!(file.into_entry(), Some(entry("item_00000/contents", b"")));
}

#[test]
fn folder_is_passed_over() {
    assert_eq!(found(Some("item_00000"), false, None).into_entry(), None);
    assert_eq!(found(Some("item_00000"), false, Some(b"x")).into_entry(), None);
}

#[test]
fn file_that_could_not_be_read_is_passed_over() {
    assert_eq!(found(Some("item_00000/a.pdf"), true, None).into_entry(), None);
}

#[test]
fn file_without_a_name_as_text_is_passed_over() {
    assert_eq!(found(None, true, Some(b"x")).into_entry(), None);
}

#[test]
fn archive_holds_the_readable_files_in_the_order_of_finding() {
    let listing = vec![
        found(Some("item_00000"), false, None),
        found(Some("item_00000/a.pdf"), true, Some(b"%PDF")),
        found(Some("item_00000/contents"), true, Some(b"a.pdf\r\n")),
        found(Some("item_00000/dublin_core.xml"), true, None),
        found(Some("item_00001"), false, None),
        found(None, true, Some(b"?")),
        found(Some("item_00001/contents"), true, Some(b"")),
    ];
    assert_eq!(
        archive_entries(listing),
        vec![
            entry("item_00000/a.pdf", b"%PDF"),
            entry("item_00000/contents", b"a.pdf\r\n"),
            entry("item_00001/contents", b""),
        ]
    );
}

#[test]
fn archive_of_nothing_is_empty() {
    assert!(archive_entries(Vec::new()).is_empty());
}

#[test]
fn archive_is_named_after_the_output_folder() {
    assert_eq!(ARCHIVE_FILE, format!("{}.zip", OUTPUT_DIR));
}
