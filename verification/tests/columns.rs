use saf_builder::columns::{Column, ColumnMapping};

fn strings(parts: &[&str]) -> Vec<String> {
    parts.iter().map(|p| p.to_string()).collect()
}

fn pairs(map: &ColumnMapping) -> Vec<(String, String)> {
    map.columns().iter().map(|c| (c.header.clone(), c.value.clone())).collect()
}

fn pair(header: &str, value: &str) -> (String, String) {
    (header.to_string(), value.to_string())
}

#[test]
fn row_is_paired_with_the_headers_in_order() {
    let map = ColumnMapping::from_row(&strings(&["b", "a", "c"]), &strings(&["1", "2", "3"]));
    assert_eq!(pairs(&map), vec![pair("b", "1"), pair("a", "2"), pair("c", "3")]);
    assert_eq!(map.len(), 3);
}

#[test]
fn short_row_ends_the_pairing() {
    let map = ColumnMapping::from_row(&strings(&["a", "b", "c"]), &strings(&["1"]));
    assert_eq!(pairs(&map), vec![pair("a", "1")]);
}

#[test]
fn long_row_ends_with_the_headers() {
    let map = ColumnMapping::from_row(&strings(&["a"]), &strings(&["1", "2", "3"]));
    assert_eq!(pairs(&map), vec![pair("a", "1")]);
}

#[test]
fn empty_rows_give_no_columns() {
    let map = ColumnMapping::from_row(&strings(&[]), &strings(&[]));
    assert_eq!(map.len(), 0);
    assert!(map.columns().is_empty());
}

#[test]
fn last_of_equal_headers_stands() {
    let map = ColumnMapping::from_row(
        &strings(&["a", "b", "a", "c", "b"]),
        &strings(&["1", "2", "3", "4", "5"]),
    );
    assert_eq!(pairs(&map), vec![pair("a", "3"), pair("c", "4"), pair("b", "5")]);
}

#[test]
fn header_beyond_a_short_row_overrides_nothing() {
    let map = ColumnMapping::from_row(&strings(&["a", "b", "a"]), &strings(&["1", "2"]));
    assert_eq!(pairs(&map), vec![pair("a", "1"), pair("b", "2")]);
}

#[test]
fn headers_differ_by_case() {
    let map = ColumnMapping::from_row(&strings(&["a", "A"]), &strings(&["1", "2"]));
    assert_eq!(pairs(&map), vec![pair("a", "1"), pair("A", "2")]);
}

#[test]
fn columns_can_be_compared() {
    let one = Column { header: "a".to_string(), value: "1".to_string() };
    assert_eq!(one.clone(), one);
}

#[test]
fn mapping_holds_what_a_hash_map_of_the_pairs_holds() {
    let names = ["a", "b", "c", "dc.title", "filename"];
    let mut state: u32 = 0x1234ABCD;
    for round in 0..300usize {
        let mut headers = Vec::new();
        let mut cells = Vec::new();
        for position in 0..(round % 9) {
            state ^= state << 13;
            state ^= state >> 17;
            state ^= state << 5;
            headers.push(names[(state >> 9) as usize % names.len()].to_string());
            cells.push(format!("{}-{}", round, position));
        }
        if round % 4 == 0 {
            cells.pop();
        }
        let map = ColumnMapping::from_row(&headers, &cells);
        let expected: std::collections::HashMap<String, String> =
            headers.iter().cloned().zip(cells.iter().cloned()).collect();
        assert_eq!(map.len(), expected.len());
        for column in map.columns().iter() {
            assert_eq!(expected.get(&column.header), Some(&column.value));
        }
    }
}
