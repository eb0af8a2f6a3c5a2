use utf8_columns::metadata::{get_arrow_schema_from_metadata, parse_key_value_metadata, read_schema_from_metadata};
use utf8_columns::Error;

#[test]
fn schema_decode_rejects_invalid_base64() {
    let r = get_arrow_schema_from_metadata("not base64 !!");
    assert!(matches!(r, Err(Error::InvalidArgumentError(_))));
}

#[test]
fn schema_decode_plain_payload() {
    assert_eq!(get_arrow_schema_from_metadata("AQID").unwrap(), vec![1, 2, 3]);
}

#[test]
fn schema_decode_skips_continuation_marker() {
    // 0xFFFFFFFF, length 4, then the payload 9, 8
    let r = get_arrow_schema_from_metadata("/////wQAAAAJCA==").unwrap();
    assert_eq!(r, vec![9, 8]);
}

#[test]
fn read_schema_removes_the_entry() {
    let mut m = vec![
        ("other".to_string(), "x".to_string()),
        ("ARROW:schema".to_string(), "AQID".to_string()),
    ];
    let r = read_schema_from_metadata(&mut m).unwrap();
    assert_eq!(r, Some(vec![1, 2, 3]));
    assert_eq!(m, vec![("other".to_string(), "x".to_string())]);
}

#[test]
fn read_schema_without_entry() {
    let mut m = vec![("other".to_string(), "x".to_string())];
    assert_eq!(read_schema_from_metadata(&mut m), Ok(None));
    assert_eq!(m.len(), 1);
}

#[test]
fn read_schema_with_invalid_value_is_an_error() {
    let mut m = vec![("ARROW:schema".to_string(), "%%%".to_string())];
    assert!(matches!(read_schema_from_metadata(&mut m), Err(Error::InvalidArgumentError(_))));
    assert!(m.is_empty());
}

#[test]
fn parse_keeps_pairs_with_values() {
    let kvs = Some(vec![
        ("a".to_string(), Some("1".to_string())),
        ("b".to_string(), None),
        ("c".to_string(), Some("3".to_string())),
    ]);
    let m = parse_key_value_metadata(&kvs);
    assert_eq!(m, vec![("a".to_string(), "1".to_string()), ("c".to_string(), "3".to_string())]);
    assert!(parse_key_value_metadata(&None).is_empty());
}

#[test]
fn parse_keeps_last_value_of_a_key() {
    let kvs = Some(vec![
        ("a".to_string(), Some("1".to_string())),
        ("b".to_string(), Some("2".to_string())),
        ("a".to_string(), Some("3".to_string())),
        ("a".to_string(), None),
    ]);
    let m = parse_key_value_metadata(&kvs);
    assert_eq!(m, vec![("a".to_string(), "3".to_string()), ("b".to_string(), "2".to_string())]);
}
