use utf8_columns::const_utf8::ConstUtf8Array;
use utf8_columns::growable::GrowableConstUtf8;

#[test]
fn growable_of_ab_three_times() {
    let a = ConstUtf8Array::new("ab".to_string(), 5);
    let mut g = GrowableConstUtf8::new(vec![&a], false, 3);
    g.extend(0, 0, 3);
    let r = g.to();
    assert_eq!(r.offsets(), &vec![0, 2, 4, 6]);
    assert_eq!(r.values(), &b"ababab".to_vec());
    assert!(r.validity().is_none());
}

#[test]
fn extend_validity_pads_with_nulls() {
    let a = ConstUtf8Array::new("ab".to_string(), 5);
    let mut g = GrowableConstUtf8::new(vec![&a], true, 5);
    g.extend(0, 0, 3);
    g.extend_validity(2);
    let r = g.to();
    assert_eq!(r.offsets(), &vec![0, 2, 4, 6, 6, 6]);
    assert_eq!(r.values(), &b"ababab".to_vec());
    assert_eq!(r.validity(), Some(&vec![true, true, true, false, false]));
}

#[test]
fn extend_ignores_start_and_mixes_sources() {
    let a = ConstUtf8Array::new("x".to_string(), 2);
    let b = ConstUtf8Array::new("é".to_string(), 2);
    let mut g = GrowableConstUtf8::new(vec![&a, &b], true, 0);
    g.extend(1, 1, 1);
    g.extend_validity(1);
    g.extend(0, 7, 2);
    g.extend(1, 0, 0);
    let r = g.to();
    assert_eq!(r.offsets(), &vec![0, 2, 2, 3, 4]);
    assert_eq!(r.values(), &"éxx".as_bytes().to_vec());
    assert_eq!(r.validity(), Some(&vec![true, false, true, true]));
    assert_eq!(r.entry(0), "é".as_bytes());
}

#[test]
fn empty_growable_builds_empty_column() {
    let a = ConstUtf8Array::new("x".to_string(), 2);
    let g = GrowableConstUtf8::new(vec![&a], false, 0);
    let r = g.to();
    assert_eq!(r.offsets(), &vec![0]);
    assert_eq!(r.len(), 0);
    assert!(r.validity().is_none());
}

#[test]
fn empty_value_gives_equal_offsets() {
    let a = ConstUtf8Array::new(String::new(), 3);
    let mut g = GrowableConstUtf8::new(vec![&a], false, 3);
    g.extend(0, 0, 3);
    let r = g.to();
    assert_eq!(r.offsets(), &vec![0, 0, 0, 0]);
    assert!(r.values().is_empty());
}
