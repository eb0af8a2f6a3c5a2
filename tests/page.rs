use utf8_columns::page::{array_to_page, encode_delta, encode_plain, null_count, write_def_levels, Encoding, Version, WriteOptions};
use utf8_columns::statistics::build_statistics;
use utf8_columns::utf8::Utf8Array;
use utf8_columns::Error;

fn column(items: &[Option<&str>]) -> Utf8Array {
    let mut offsets = vec![0i32];
    let mut values = vec![];
    let mut validity = vec![];
    for item in items {
        if let Some(s) = item {
            values.extend_from_slice(s.as_bytes());
        }
        offsets.push(values.len() as i32);
        validity.push(item.is_some());
    }
    let validity = if validity.iter().all(|v| *v) { None } else { Some(validity) };
    Utf8Array::try_new(offsets, values, validity).unwrap()
}

#[test]
fn encode_plain_non_nullable() {
    let a = column(&[Some("a"), Some("bb")]);
    let mut buffer = vec![];
    encode_plain(&a, false, &mut buffer);
    assert_eq!(buffer, vec![1, 0, 0, 0, b'a', 2, 0, 0, 0, b'b', b'b']);
}

#[test]
fn encode_plain_skips_nulls_when_optional() {
    let a = column(&[Some("a"), None, Some("c")]);
    let mut buffer = vec![9];
    encode_plain(&a, true, &mut buffer);
    assert_eq!(buffer, vec![9, 1, 0, 0, 0, b'a', 1, 0, 0, 0, b'c']);
}

#[test]
fn page_of_required_column_has_no_levels() {
    let a = column(&[Some("a"), Some("bb")]);
    let options = WriteOptions { write_statistics: false, version: Version::V1 };
    let page = array_to_page(&a, options, false, Encoding::Plain).unwrap();
    assert_eq!(page.definition_levels_byte_length, 0);
    assert_eq!(page.buffer, vec![1, 0, 0, 0, b'a', 2, 0, 0, 0, b'b', b'b']);
    assert_eq!(page.num_values, 2);
    assert_eq!(page.num_rows, 2);
    assert_eq!(page.null_count, 0);
    assert_eq!(page.encoding, Encoding::Plain);
    assert!(page.statistics.is_none());
}

#[test]
fn page_rejects_other_encodings() {
    let a = column(&[Some("a")]);
    let options = WriteOptions { write_statistics: true, version: Version::V2 };
    let r = array_to_page(&a, options, false, Encoding::Rle);
    match r {
        Err(Error::InvalidArgumentError(m)) => assert_eq!(m, "Datatype Utf8 cannot be encoded by Rle encoding"),
        _ => panic!("expected an argument error"),
    }
    let r = array_to_page(&a, options, false, Encoding::DeltaByteArray);
    assert!(r.is_err());
}

#[test]
fn optional_v1_levels_are_length_prefixed() {
    let a = column(&[Some("a"), None, Some("c")]);
    let mut v1 = vec![];
    write_def_levels(&a, true, Version::V1, &mut v1);
    let mut v2 = vec![];
    write_def_levels(&a, true, Version::V2, &mut v2);
    // one bit-packed group of 8: header (1 << 1 | 1), then the bits 0b101
    assert_eq!(v2, vec![3, 0b101]);
    assert_eq!(v1, vec![2, 0, 0, 0, 3, 0b101]);
    let mut none = vec![];
    write_def_levels(&a, false, Version::V1, &mut none);
    assert!(none.is_empty());
}

#[test]
fn optional_page_counts_nulls() {
    let a = column(&[Some("a"), None, Some("c")]);
    let options = WriteOptions { write_statistics: true, version: Version::V2 };
    let page = array_to_page(&a, options, true, Encoding::Plain).unwrap();
    assert_eq!(page.definition_levels_byte_length, 2);
    assert_eq!(page.buffer, vec![3, 0b101, 1, 0, 0, 0, b'a', 1, 0, 0, 0, b'c']);
    assert_eq!(page.null_count, 1);
    assert_eq!(null_count(&a), 1);
    let stats = page.statistics.unwrap();
    assert_eq!(stats.null_count, Some(1));
}

#[test]
fn delta_length_ends_with_the_values() {
    let a = column(&[Some("ab"), Some("c")]);
    let mut buffer = vec![];
    encode_delta(&a, false, &mut buffer);
    assert!(buffer.len() > 3);
    assert!(buffer.ends_with(b"abc"));
    let options = WriteOptions { write_statistics: false, version: Version::V1 };
    let page = array_to_page(&a, options, false, Encoding::DeltaLengthByteArray).unwrap();
    assert_eq!(page.buffer, buffer);
}

#[test]
fn statistics_of_fruit() {
    let a = column(&[Some("banana"), Some("apple"), Some("cherry")]);
    let stats = build_statistics(&a);
    assert_eq!(stats.null_count, Some(0));
    assert_eq!(stats.distinct_count, None);
    assert_eq!(stats.min_value, Some(b"apple".to_vec()));
    assert_eq!(stats.max_value, Some(b"cherry".to_vec()));
}

#[test]
fn statistics_skip_nulls() {
    let a = column(&[None, Some("b"), None, Some("a")]);
    let stats = build_statistics(&a);
    assert_eq!(stats.null_count, Some(2));
    assert_eq!(stats.min_value, Some(b"a".to_vec()));
    assert_eq!(stats.max_value, Some(b"b".to_vec()));
}

#[test]
fn statistics_without_valid_entries() {
    let a = column(&[None, None]);
    let stats = build_statistics(&a);
    assert_eq!(stats.null_count, Some(2));
    assert_eq!(stats.min_value, None);
    assert_eq!(stats.max_value, None);
    let empty = column(&[]);
    let stats = build_statistics(&empty);
    assert_eq!(stats.null_count, Some(0));
    assert!(stats.max_value.is_none());
}

#[test]
fn statistics_truncate_long_values() {
    let long = "m".repeat(300);
    let a = column(&[Some(&long), Some("a")]);
    let stats = build_statistics(&a);
    let mut expected_max = "m".repeat(255);
    expected_max.push('n');
    assert_eq!(stats.max_value, Some(expected_max.into_bytes()));
    assert_eq!(stats.min_value, Some(b"a".to_vec()));
}
