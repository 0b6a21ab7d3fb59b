use saf_builder::entry::DcEntry;

fn entry_with(values: &[&str]) -> DcEntry {
    DcEntry {
        element: "title".to_string(),
        qualifier: "none".to_string(),
        values: values.iter().map(|v| v.to_string()).collect(),
    }
}

#[test]
fn entry_without_values_is_blank() {
    let entry = entry_with(&[]);
    assert!(entry.blank());
    assert!(entry.real_values().is_empty());
}

#[test]
fn entry_with_only_empty_values_is_blank() {
    let entry = entry_with(&["", ""]);
    assert!(entry.blank());
    assert!(entry.real_values().is_empty());
}

#[test]
fn entry_with_one_real_value_is_not_blank() {
    assert!(!entry_with(&["", "x"]).blank());
    assert!(!entry_with(&[" "]).blank());
}

#[test]
fn real_values_drop_the_empty_values_only() {
    let entry = entry_with(&["A", "", "B"]);
    assert!(!entry.blank());
    assert_eq!(entry.real_values(), vec!["A".to_string(), "B".to_string()]);
    assert_eq!(entry.values.len(), 3);
}

#[test]
fn real_values_keep_order_and_repeats() {
    let entry = entry_with(&["b", "", "a", "b", ""]);
    assert_eq!(entry.real_values(), vec!["b".to_string(), "a".to_string(), "b".to_string()]);
}

#[test]
fn header_with_two_parts_has_the_qualifier_none() {
    let entry = DcEntry::from_column("dc.title", "A Title").unwrap();
    assert_eq!(entry.element, "title");
    assert_eq!(entry.qualifier, "none");
    assert_eq!(entry.values, vec!["A Title".to_string()]);
}

#[test]
fn header_with_three_parts_names_its_qualifier() {
    let entry = DcEntry::from_column("dc.title.alternative", "Other").unwrap();
    assert_eq!(entry.element, "title");
    assert_eq!(entry.qualifier, "alternative");
}

#[test]
fn further_parts_of_a_header_are_passed_over() {
    let entry = DcEntry::from_column("dc.date.issued.extra", "2001").unwrap();
    assert_eq!(entry.element, "date");
    assert_eq!(entry.qualifier, "issued");
}

#[test]
fn bare_prefix_gives_an_empty_element() {
    let entry = DcEntry::from_column("dc.", "x").unwrap();
    assert_eq!(entry.element, "");
    assert_eq!(entry.qualifier, "none");
}

#[test]
fn empty_qualifier_part_is_kept_as_it_is() {
    let entry = DcEntry::from_column("dc.title.", "x").unwrap();
    assert_eq!(entry.element, "title");
    assert_eq!(entry.qualifier, "");
}

#[test]
fn cell_is_split_into_values() {
    let entry = DcEntry::from_column("dc.subject", "A||||B").unwrap();
    assert_eq!(entry.values, vec!["A".to_string(), "".to_string(), "B".to_string()]);
    assert_eq!(entry.real_values(), vec!["A".to_string(), "B".to_string()]);
}

#[test]
fn empty_cell_gives_one_empty_value() {
    let entry = DcEntry::from_column("dc.subject", "").unwrap();
    assert_eq!(entry.values, vec!["".to_string()]);
    assert!(entry.blank());
}

#[test]
fn other_headers_are_no_metadata() {
    assert_eq!(DcEntry::from_column("filename", "a.pdf"), None);
    assert_eq!(DcEntry::from_column("dc", "x"), None);
    assert_eq!(DcEntry::from_column("DC.title", "x"), None);
    assert_eq!(DcEntry::from_column(" dc.title", "x"), None);
    assert_eq!(DcEntry::from_column("", "x"), None);
}

#[test]
fn record_holds_the_real_values() {
    let record = entry_with(&["A", "", "B"]).to_record();
    assert_eq!(record.element, "title");
    assert_eq!(record.qualifier, "none");
    assert_eq!(record.values, vec!["A".to_string(), "B".to_string()]);
}
