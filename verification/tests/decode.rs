use saf_builder::decode::{decode_text, decoding_result, DecodeError, DEFAULT_ENCODING};

#[test]
fn bytes_are_decoded_as_windows_1252_where_nothing_is_asked_for() {
    assert_eq!(decode_text(&[0x63, 0x61, 0x66, 0xE9], None), Ok("café".to_string()));
    assert_eq!(decode_text(&[0x80, 0x31], None), Ok("€1".to_string()));
}

#[test]
fn label_that_is_asked_for_is_used() {
    assert_eq!(decode_text("café".as_bytes(), Some("utf-8")), Ok("café".to_string()));
    assert_eq!(decode_text(&[0xE9], Some("iso-8859-2")), Ok("é".to_string()));
    assert_eq!(decode_text(&[0xA1], Some("iso-8859-2")), Ok("Ą".to_string()));
}

#[test]
fn unknown_label_falls_back_to_windows_1252() {
    assert_eq!(decode_text(&[0xA1], Some("no-such-encoding")), Ok("¡".to_string()));
    assert_eq!(decode_text(&[0xA1], Some("")), Ok("¡".to_string()));
}

#[test]
fn undecodable_bytes_are_replaced() {
    assert_eq!(decode_text(&[0x61, 0xFF, 0x62], Some("utf-8")), Ok("a\u{FFFD}b".to_string()));
    assert_eq!(decode_text(&[0xC3], Some("utf-8")), Ok("\u{FFFD}".to_string()));
}

#[test]
fn empty_file_is_an_empty_text() {
    assert_eq!(decode_text(&[], None), Ok(String::new()));
}

#[test]
fn default_label_names_windows_1252() {
    assert_eq!(DEFAULT_ENCODING, "windows-1252");
    assert_eq!(decode_text(&[0x93, 0x94], Some(DEFAULT_ENCODING)), Ok("\u{201C}\u{201D}".to_string()));
}

#[test]
fn outcomes_of_decoding_become_results() {
    assert_eq!(decoding_result(Some(Ok("text".to_string()))), Ok("text".to_string()));
    assert_eq!(
        decoding_result(Some(Err("bad".to_string()))),
        Err(DecodeError::Undecodable("bad".to_string()))
    );
    assert_eq!(decoding_result(None), Err(DecodeError::UnknownEncoding));
}

#[test]
fn decoding_goes_on_whatever_the_bytes() {
    let labels = [
        "utf-8", "windows-1252", "iso-8859-2", "iso-8859-15", "koi8-r", "macintosh", "ibm866",
        "shift_jis", "euc-jp", "iso-2022-jp", "euc-kr", "gbk", "gb18030", "hz-gb-2312", "big5",
        "utf-16le", "utf-16be", "x-user-defined", "replacement", "windows-1251", "latin1",
    ];
    let mut state: u32 = 0x2545F491;
    for round in 0..400usize {
        let mut bytes = Vec::new();
        for _ in 0..(round % 37) {
            state ^= state << 13;
            state ^= state >> 17;
            state ^= state << 5;
            bytes.push((state >> 11) as u8);
        }
        for label in labels.iter() {
            assert!(decode_text(&bytes, Some(label)).is_ok());
        }
    }
}

#[test]
fn labels_are_told_without_regard_to_case_and_outer_blanks() {
    assert_eq!(decode_text(&[0xA1], Some(" ISO-8859-2 ")), Ok("Ą".to_string()));
    assert_eq!(decode_text("é".as_bytes(), Some("UTF-8")), Ok("é".to_string()));
}
