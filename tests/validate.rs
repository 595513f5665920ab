use warpforge::validate::{comma_before, find_byte_offset, repair_json, ValidationError};

#[test]
fn byte_offsets_by_line_and_column() {
    let src = b"ab\ncd\n";
    assert_eq!(find_byte_offset(src, 1, 1), Some(0));
    assert_eq!(find_byte_offset(src, 1, 3), Some(2));
    assert_eq!(find_byte_offset(src, 2, 1), Some(3));
    assert_eq!(find_byte_offset(src, 2, 2), Some(4));
    assert_eq!(find_byte_offset(src, 1, 4), None);
    assert_eq!(find_byte_offset(src, 3, 1), None);
    assert_eq!(find_byte_offset(b"", 1, 1), None);
}

#[test]
fn comma_search_skips_white_space() {
    let src = b"[1, \n ]";
    assert_eq!(comma_before(src, 6), Some(2));
    assert_eq!(comma_before(b"[1 ]", 3), None);
    assert_eq!(comma_before(b"  ", 2), None);
}

#[test]
fn trailing_commas_are_repaired() {
    let src = "{\"a\": [1, 2,],\n \"b\": 3,\n}";
    let rep = repair_json(src).unwrap();
    assert_eq!(rep.errors.len(), 2);
    assert!(rep.errors.iter().all(|e| e.is_trailing_comma()));
    assert_eq!(rep.errors[0].span(src), Some(11..12));
    assert_eq!(
        String::from_utf8(rep.source.clone()).unwrap(),
        "{\"a\": [1, 2 ],\n \"b\": 3 \n}"
    );
    assert_eq!(rep.value["b"], serde_json::Value::from(3));
}

#[test]
fn other_syntax_errors_stop() {
    let errors = repair_json("{\"a\": }").err().unwrap();
    assert_eq!(errors.len(), 1);
    assert!(matches!(errors[0], ValidationError::Serde(_)));
    assert_eq!(errors[0].span("{\"a\": }"), Some(6..6));
}

#[test]
fn valid_json_has_no_errors() {
    let rep = repair_json("{\"a\": 1}").unwrap();
    assert!(rep.errors.is_empty());
    assert_eq!(rep.source, b"{\"a\": 1}".to_vec());
}

#[test]
fn trailing_commas_then_other_error() {
    let errors = repair_json("{\"a\": [1,], \"b\": }").err().unwrap();
    assert_eq!(errors.len(), 2);
    assert!(errors[0].is_trailing_comma());
    assert!(!errors[1].is_trailing_comma());
}
