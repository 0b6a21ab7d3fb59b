use saf_builder::table::read_table;

fn strings(parts: &[&str]) -> Vec<String> {
    parts.iter().map(|p| p.to_string()).collect()
}

#[test]
fn first_record_is_the_header_row() {
    let table = read_table("dc.title,filename\nA,a.pdf\nB,b.pdf\n");
    assert_eq!(table.headers, strings(&["dc.title", "filename"]));
    assert_eq!(table.rows, vec![strings(&["A", "a.pdf"]), strings(&["B", "b.pdf"])]);
    assert!(table.broken.is_none());
}

#[test]
fn quoted_fields_hold_commas_quotes_and_line_breaks() {
    let table = read_table("a,b\n\"x, y\",\"say \"\"hi\"\"\"\n\"two\nlines\",z\n");
    assert_eq!(table.headers, strings(&["a", "b"]));
    assert_eq!(
        table.rows,
        vec![strings(&["x, y", "say \"hi\""]), strings(&["two\nlines", "z"])]
    );
    assert!(table.broken.is_none());
}

#[test]
fn empty_text_gives_an_empty_table() {
    let table = read_table("");
    assert!(table.headers.is_empty());
    assert!(table.rows.is_empty());
    assert!(table.broken.is_none());
}

#[test]
fn header_row_alone_gives_no_rows() {
    let table = read_table("dc.title,filename\n");
    assert_eq!(table.headers, strings(&["dc.title", "filename"]));
    assert!(table.rows.is_empty());
    assert!(table.broken.is_none());
}

#[test]
fn last_line_needs_no_line_break() {
    let table = read_table("a,b\r\n1,2");
    assert_eq!(table.headers, strings(&["a", "b"]));
    assert_eq!(table.rows, vec![strings(&["1", "2"])]);
}

#[test]
fn row_of_another_length_ends_the_reading() {
    let table = read_table("a,b\n1,2\n3\n4,5\n");
    assert_eq!(table.headers, strings(&["a", "b"]));
    assert_eq!(table.rows, vec![strings(&["1", "2"])]);
    assert!(table.broken.is_some());
}

#[test]
fn cells_keep_their_separators() {
    let table = read_table("filename__bundle__ORIGINAL,dc.subject\na.pdf||b.png__THUMBNAIL,x||y\n");
    assert_eq!(table.headers, strings(&["filename__bundle__ORIGINAL", "dc.subject"]));
    assert_eq!(table.rows, vec![strings(&["a.pdf||b.png__THUMBNAIL", "x||y"])]);
}

#[test]
fn reading_goes_on_whatever_the_text() {
    let alphabet = ['a', ',', '"', '\n', '\r', ' ', 'é', '|', '\\', '\t'];
    let mut state: u32 = 0x9E3779B9;
    for round in 0..600usize {
        let mut text = String::new();
        for _ in 0..(round % 41) {
            state ^= state << 13;
            state ^= state >> 17;
            state ^= state << 5;
            text.push(alphabet[(state >> 7) as usize % alphabet.len()]);
        }
        let table = read_table(&text);
        for row in table.rows.iter() {
            assert_eq!(row.len(), table.headers.len());
        }
    }
}
