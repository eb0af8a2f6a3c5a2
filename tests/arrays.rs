use utf8_columns::const_utf8::{write_value, ConstUtf8Array};
use utf8_columns::datatypes::DataType;
use utf8_columns::utf8::{check_offsets_and_utf8, Utf8Array};

#[test]
fn iter_yields_value_len_times() {
    let a = ConstUtf8Array::new("hi".to_string(), 4);
    let items = a.iter();
    assert_eq!(items.len(), 4);
    assert!(items.iter().all(|x| *x == "hi"));
}

#[test]
fn iter_of_empty_column_yields_nothing() {
    let a = ConstUtf8Array::new("hi".to_string(), 0);
    assert_eq!(a.iter().len(), 0);
    assert!(a.is_empty());
}

#[test]
fn value_len_and_is_empty() {
    let a = ConstUtf8Array::new("abc".to_string(), 7);
    assert_eq!(a.value(), "abc");
    assert_eq!(a.len(), 7);
    assert!(!a.is_empty());
    assert_eq!(a.data_type(), DataType::ConstUtf8);
    assert!(a.validity().is_none());
}

#[test]
fn slice_keeps_value_and_takes_length() {
    let a = ConstUtf8Array::new("v".to_string(), 10);
    let s = a.slice(3, 5);
    assert_eq!(s.value(), "v");
    assert_eq!(s.len(), 5);
    let whole = a.slice(0, 10);
    assert_eq!(whole.len(), 10);
    let empty = a.slice(10, 0);
    assert!(empty.is_empty());
}

#[test]
fn slice_unchecked_ignores_offset() {
    let a = ConstUtf8Array::new("v".to_string(), 2);
    let s = a.slice_unchecked(1, 1);
    assert_eq!(s.value(), "v");
    assert_eq!(s.len(), 1);
}

#[test]
fn with_no_validity_is_same_column() {
    let a = ConstUtf8Array::new("q".to_string(), 3);
    let b = a.with_validity(None);
    assert_eq!(b.value(), "q");
    assert_eq!(b.len(), 3);
}

#[test]
fn write_value_appends_the_value() {
    let a = ConstUtf8Array::new("xyz".to_string(), 3);
    let mut out = String::from(">");
    write_value(&a, &mut out);
    assert_eq!(out, ">xyz");
}

#[test]
fn utf8_array_accepts_valid_parts() {
    let a = Utf8Array::try_new(vec![0, 1, 3], b"abb".to_vec(), Some(vec![true, false])).unwrap();
    assert_eq!(a.len(), 2);
    assert_eq!(a.entry(1), b"bb");
    assert!(a.is_valid(0));
    assert!(!a.is_valid(1));
    assert_eq!(a.data_type(), DataType::Utf8);
}

#[test]
fn utf8_array_rejects_bad_offsets() {
    assert!(Utf8Array::try_new(vec![0, 2, 1], b"ab".to_vec(), None).is_err());
    assert!(Utf8Array::try_new(vec![1, 2], b"ab".to_vec(), None).is_err());
    assert!(Utf8Array::try_new(vec![0, 1], b"ab".to_vec(), None).is_err());
    assert!(Utf8Array::try_new(vec![], vec![], None).is_err());
    assert!(Utf8Array::try_new(vec![0, 2], b"ab".to_vec(), Some(vec![true, true])).is_err());
}

#[test]
fn check_rejects_split_character() {
    let values = "é".as_bytes().to_vec();
    assert!(check_offsets_and_utf8(&vec![0, 2], &values));
    assert!(!check_offsets_and_utf8(&vec![0, 1, 2], &values));
}
