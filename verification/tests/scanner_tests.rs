use gbuild::scanner::scan_manifest;
use gbuild::scanner::ScanErrorKind;

#[test]
fn yields_each_file_entry_in_document_order() {
    let xml = b"<gresources><gresource prefix=\"/app\"><file>a&amp;b.txt</file><file>c.txt</file><file>d/e.png</file></gresource></gresources>";
    let paths = scan_manifest(xml).unwrap();
    assert_eq!(paths, vec!["a&b.txt".to_string(), "c.txt".to_string(), "d/e.png".to_string()]);
}

#[test]
fn zero_file_elements_yield_empty_sequence() {
    let xml = b"<?xml version=\"1.0\"?>\n<gresources>\n  <gresource prefix=\"/app\">\n  </gresource>\n</gresources>\n";
    let paths = scan_manifest(xml).unwrap();
    assert!(paths.is_empty());
}

#[test]
fn named_entities_are_decoded() {
    let xml = b"<r><file>&lt;&gt;&quot;&apos;&amp;</file></r>";
    let paths = scan_manifest(xml).unwrap();
    assert_eq!(paths, vec!["<>\"'&".to_string()]);
}

#[test]
fn numeric_entities_are_decoded() {
    let xml = b"<r><file>&#65;&#x41;&#x2f;</file></r>";
    let paths = scan_manifest(xml).unwrap();
    assert_eq!(paths, vec!["AA/".to_string()]);
}

#[test]
fn multibyte_numeric_entity_is_decoded() {
    let xml = b"<r><file>caf&#233;&#x1F600;</file></r>";
    let paths = scan_manifest(xml).unwrap();
    assert_eq!(paths, vec!["caf\u{e9}\u{1f600}".to_string()]);
}

#[test]
fn unknown_entity_is_a_fatal_error() {
    let xml = b"<r><file>a&zz;</file></r>";
    let err = scan_manifest(xml).unwrap_err();
    assert_eq!(err.kind, ScanErrorKind::InvalidEntity);
    assert_eq!(err.position, 10);
}

#[test]
fn bare_ampersand_is_a_fatal_error() {
    let xml = b"<r><file>a & b</file></r>";
    let err = scan_manifest(xml).unwrap_err();
    assert_eq!(err.kind, ScanErrorKind::InvalidEntity);
}

#[test]
fn surrogate_numeric_entity_is_a_fatal_error() {
    let xml = b"<r><file>&#xD800;</file></r>";
    let err = scan_manifest(xml).unwrap_err();
    assert_eq!(err.kind, ScanErrorKind::InvalidEntity);
}

#[test]
fn unclosed_tag_at_end_of_input_is_a_fatal_error() {
    let xml = b"<gresources><file";
    let err = scan_manifest(xml).unwrap_err();
    assert_eq!(err.kind, ScanErrorKind::UnexpectedEof);
    assert_eq!(err.position, 12);
}

#[test]
fn missing_end_tags_are_a_fatal_error() {
    let xml = b"<gresources><file>a.txt";
    let err = scan_manifest(xml).unwrap_err();
    assert_eq!(err.kind, ScanErrorKind::UnclosedTag);
    assert_eq!(err.position, xml.len());
}

#[test]
fn mismatched_closing_tag_is_a_fatal_error() {
    let xml = b"<a><file>x</file></b>";
    let err = scan_manifest(xml).unwrap_err();
    assert_eq!(err.kind, ScanErrorKind::MismatchedClosingTag);
    assert_eq!(err.position, 17);
}

#[test]
fn self_closing_file_element_yields_nothing() {
    let xml = b"<r><file/></r>";
    let paths = scan_manifest(xml).unwrap();
    assert!(paths.is_empty());
}

#[test]
fn empty_file_element_leaves_the_scanner_armed() {
    // An empty element emits no text node, so the scanner still waits for
    // one and takes the next text node as the path.
    let xml = b"<r><file></file>x</r>";
    let paths = scan_manifest(xml).unwrap();
    assert_eq!(paths, vec!["x".to_string()]);
}

#[test]
fn only_the_first_text_node_of_an_element_is_yielded() {
    let xml = b"<r><file>a<!-- note -->b</file></r>";
    let paths = scan_manifest(xml).unwrap();
    assert_eq!(paths, vec!["a".to_string()]);
}

#[test]
fn whitespace_between_elements_is_ignored() {
    let xml = b"<r>\n  <file>a.txt</file>\n  <other>zzz</other>\n</r>";
    let paths = scan_manifest(xml).unwrap();
    assert_eq!(paths, vec!["a.txt".to_string()]);
}

#[test]
fn gt_inside_quoted_attribute_does_not_end_the_tag() {
    let xml = b"<r prefix=\"a>b\"><file>x</file></r>";
    let paths = scan_manifest(xml).unwrap();
    assert_eq!(paths, vec!["x".to_string()]);
}

#[test]
fn declaration_doctype_and_comment_are_skipped() {
    let xml = b"<?xml version=\"1.0\" encoding=\"UTF-8\"?><!DOCTYPE r><!-- c --><r/>";
    let paths = scan_manifest(xml).unwrap();
    assert!(paths.is_empty());
}

#[test]
fn unterminated_comment_is_a_fatal_error() {
    let xml = b"<r><!-- never closed </r>";
    let err = scan_manifest(xml).unwrap_err();
    assert_eq!(err.kind, ScanErrorKind::UnexpectedEof);
    assert_eq!(err.position, 3);
}

#[test]
fn invalid_utf8_in_file_text_is_a_fatal_error() {
    let mut xml: Vec<u8> = Vec::new();
    xml.extend_from_slice(b"<r><file>");
    xml.push(0xff);
    xml.extend_from_slice(b"</file></r>");
    let err = scan_manifest(&xml).unwrap_err();
    assert_eq!(err.kind, ScanErrorKind::InvalidUtf8);
    assert_eq!(err.position, 9);
}

#[test]
fn whitespace_inside_file_element_is_kept() {
    let xml = b"<r><file> a.txt </file></r>";
    let paths = scan_manifest(xml).unwrap();
    assert_eq!(paths, vec![" a.txt ".to_string()]);
}

#[test]
fn nested_file_tags_rearm_the_scanner() {
    let xml = b"<r><file><file>inner</file></file></r>";
    let paths = scan_manifest(xml).unwrap();
    assert_eq!(paths, vec!["inner".to_string()]);
}
