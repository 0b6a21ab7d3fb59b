use saf_builder::entry::DcEntry;
use saf_builder::render::render_metadata;

fn entry(element: &str, qualifier: &str, values: &[&str]) -> DcEntry {
    DcEntry {
        element: element.to_string(),
        qualifier: qualifier.to_string(),
        values: values.iter().map(|v| v.to_string()).collect(),
    }
}

#[test]
fn renders_one_dcvalue_for_each_real_value() {
    let entries = vec![
        entry("title", "none", &["A", "", "B"]),
        entry("date", "issued", &["", ""]),
        entry("creator", "none", &[]),
        entry("subject", "lcsh", &["Cats & dogs"]),
    ];
    let text = render_metadata(&entries).unwrap();
    assert_eq!(
        text,
        "<?xml version=\"1.0\" encoding=\"UTF-8\"?>\n<dublin_core>\n  <dcvalue element=\"title\" qualifier=\"none\">A</dcvalue>\n  <dcvalue element=\"title\" qualifier=\"none\">B</dcvalue>\n  <dcvalue element=\"subject\" qualifier=\"lcsh\">Cats &amp; dogs</dcvalue>\n</dublin_core>\n"
    );
}

#[test]
fn document_of_no_entries_is_an_empty_list() {
    let text = render_metadata(&Vec::new()).unwrap();
    assert_eq!(text, "<?xml version=\"1.0\" encoding=\"UTF-8\"?>\n<dublin_core>\n</dublin_core>\n");
}

#[test]
fn markup_in_values_is_escaped() {
    let entries = vec![entry("title", "none", &["<i>\"Q\"</i> & 'a'"])];
    let text = render_metadata(&entries).unwrap();
    assert_eq!(
        text,
        "<?xml version=\"1.0\" encoding=\"UTF-8\"?>\n<dublin_core>\n  <dcvalue element=\"title\" qualifier=\"none\">&lt;i&gt;&quot;Q&quot;&lt;/i&gt; &amp; &#x27;a&#x27;</dcvalue>\n</dublin_core>\n"
    );
}

#[test]
fn values_may_hold_braces_and_line_breaks() {
    let entries = vec![entry("description", "abstract", &["{{this}} is\nnot a template"])];
    let text = render_metadata(&entries).unwrap();
    assert_eq!(
        text,
        "<?xml version=\"1.0\" encoding=\"UTF-8\"?>\n<dublin_core>\n  <dcvalue element=\"description\" qualifier=\"abstract\">{{this}} is\nnot a template</dcvalue>\n</dublin_core>\n"
    );
}
