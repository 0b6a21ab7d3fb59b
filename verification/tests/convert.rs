use saf_builder::columns::ColumnMapping;
use saf_builder::convert::{build_item, convert, convert_rows, convert_table, ConvertError, Failure};
use saf_builder::item::Action;
use saf_builder::table::read_table;

fn strings(parts: &[&str]) -> Vec<String> {
    parts.iter().map(|p| p.to_string()).collect()
}

fn document(values: &[(&str, &str, &str)]) -> String {
    let mut text = String::from("<?xml version=\"1.0\" encoding=\"UTF-8\"?>\n<dublin_core>\n");
    for (element, qualifier, value) in values.iter() {
        text.push_str(&format!(
            "  <dcvalue element=\"{}\" qualifier=\"{}\">{}</dcvalue>\n",
            element, qualifier, value
        ));
    }
    text.push_str("</dublin_core>\n");
    text
}

#[test]
fn spreadsheet_becomes_one_item_for_each_row() {
    let text = "dc.title,filename__bundle__ORIGINAL,dc.subject\n\
                First,a.pdf||b.png__THUMBNAIL,x||||y\n\
                Second,c.pdf,\n";
    let conversion = convert(text);
    assert!(conversion.failure.is_none());
    assert_eq!(conversion.items.len(), 2);
    assert_eq!(conversion.items[0].folder_name, "item_00000");
    assert_eq!(
        conversion.items[0].actions,
        vec![
            Action::CreateFolder,
            Action::CreateFile { name: "contents".to_string() },
            Action::CopyFile { name: "a.pdf".to_string() },
            Action::AppendText {
                name: "contents".to_string(),
                text: "a.pdf\tbundle\tORIGINAL\r\n".to_string(),
            },
            Action::CopyFile { name: "b.png".to_string() },
            Action::AppendText {
                name: "contents".to_string(),
                text: "b.png\tTHUMBNAIL\tbundle\tORIGINAL\r\n".to_string(),
            },
            Action::WriteFile {
                name: "dublin_core.xml".to_string(),
                text: document(&[
                    ("title", "none", "First"),
                    ("subject", "none", "x"),
                    ("subject", "none", "y"),
                ]),
            },
        ]
    );
    assert_eq!(conversion.items[1].folder_name, "item_00001");
    assert_eq!(
        conversion.items[1].actions,
        vec![
            Action::CreateFolder,
            Action::CreateFile { name: "contents".to_string() },
            Action::CopyFile { name: "c.pdf".to_string() },
            Action::AppendText {
                name: "contents".to_string(),
                text: "c.pdf\tbundle\tORIGINAL\r\n".to_string(),
            },
            Action::WriteFile {
                name: "dublin_core.xml".to_string(),
                text: document(&[("title", "none", "Second")]),
            },
        ]
    );
}

#[test]
fn spreadsheet_without_rows_gives_no_items() {
    let conversion = convert("dc.title,filename\n");
    assert!(conversion.items.is_empty());
    assert!(conversion.failure.is_none());
    let nothing = convert("");
    assert!(nothing.items.is_empty());
    assert!(nothing.failure.is_none());
}

#[test]
fn spreadsheet_without_a_file_name_column_gives_no_items() {
    let conversion = convert("dc.title,files\nT,a.pdf\nU,b.pdf\n");
    assert!(conversion.items.is_empty());
    assert!(matches!(conversion.failure, Some(ConvertError::NoFilenameColumn)));
}

#[test]
fn first_failing_row_ends_the_conversion() {
    let headers = strings(&["dc.title", "filename"]);
    let rows = vec![strings(&["T", "a.pdf"]), strings(&["U"]), strings(&["V", "c.pdf"])];
    let conversion = convert_rows(&headers, &rows);
    assert_eq!(conversion.items.len(), 1);
    assert_eq!(conversion.items[0].folder_name, "item_00000");
    let failure = conversion.failure.unwrap();
    assert_eq!(failure.kind(), Failure::NoFilenameColumn);
}

#[test]
fn unreadable_record_ends_the_conversion_after_the_rows_before_it() {
    let conversion = convert("dc.title,filename\nT,a.pdf\nU\nV,c.pdf\n");
    assert_eq!(conversion.items.len(), 1);
    assert_eq!(conversion.items[0].folder_name, "item_00000");
    assert!(matches!(conversion.failure, Some(ConvertError::Table(_))));
}

#[test]
fn failing_row_comes_before_the_failure_of_the_table() {
    let table = read_table("dc.title,files\nT,a.pdf\nU\n");
    assert!(table.broken.is_some());
    let conversion = convert_table(table);
    assert!(conversion.items.is_empty());
    assert!(matches!(conversion.failure, Some(ConvertError::NoFilenameColumn)));
}

#[test]
fn missing_file_name_column_is_told_for_a_single_row() {
    let map = ColumnMapping::from_row(&strings(&["dc.title"]), &strings(&["T"]));
    assert!(matches!(build_item(0, &map), Err(ConvertError::NoFilenameColumn)));
}

#[test]
fn item_is_built_of_one_row() {
    let map = ColumnMapping::from_row(
        &strings(&["bitstream", "dc.title.alternative"]),
        &strings(&["scan.tif__bundle__ORIGINAL", "A <b>bold</b> title"]),
    );
    let item = build_item(41, &map).unwrap();
    assert_eq!(item.folder_name, "item_00041");
    assert_eq!(item.actions.len(), 5);
    assert_eq!(
        item.actions[4],
        Action::WriteFile {
            name: "dublin_core.xml".to_string(),
            text: document(&[("title", "alternative", "A &lt;b&gt;bold&lt;/b&gt; title")]),
        }
    );
}

#[test]
fn kinds_of_failure_are_told_apart() {
    assert_eq!(ConvertError::NoFilenameColumn.kind(), Failure::NoFilenameColumn);
    assert_ne!(Failure::Table, Failure::Render);
}
