use utf8_columns::statistics::lt_bytes;
use utf8_columns::truncate::{truncate_down, truncate_up, MAX_STAT_LENGTH};

#[test]
fn truncate_down_of_300_x() {
    let s = "x".repeat(300);
    let r = truncate_down(&s);
    assert_eq!(r.len(), 256);
    assert!(s.starts_with(&r));
    assert!(!lt_bytes(s.as_bytes(), r.as_bytes()));
}

#[test]
fn truncate_down_keeps_short_strings() {
    assert_eq!(truncate_down("abc"), "abc");
    let s = "y".repeat(MAX_STAT_LENGTH);
    assert_eq!(truncate_down(&s), s);
    assert_eq!(truncate_down(""), "");
}

#[test]
fn truncate_down_stops_at_character_boundary() {
    let s = format!("a{}", "é".repeat(200));
    let r = truncate_down(&s);
    assert_eq!(r, format!("a{}", "é".repeat(127)));
    assert_eq!(r.len(), 255);
}

#[test]
fn truncate_up_of_300_x() {
    let s = "x".repeat(300);
    let r = truncate_up(&s);
    assert_eq!(r, format!("{}y", "x".repeat(255)));
    assert!(lt_bytes(s.as_bytes(), r.as_bytes()));
}

#[test]
fn truncate_up_skips_surrogates() {
    let s = format!("{}\u{D7FF}{}", "a".repeat(253), "z".repeat(10));
    let r = truncate_up(&s);
    assert_eq!(r, format!("{}\u{E000}", "a".repeat(253)));
    assert!(lt_bytes(s.as_bytes(), r.as_bytes()));
}

#[test]
fn truncate_up_stays_at_largest_code_point() {
    let s = format!("{}\u{10FFFF}{}", "a".repeat(252), "z".repeat(10));
    let r = truncate_up(&s);
    assert_eq!(r, format!("{}\u{10FFFF}", "a".repeat(252)));
}

#[test]
fn truncate_up_may_grow_a_character() {
    let s = format!("{}\u{7F}{}", "a".repeat(255), "z".repeat(10));
    let r = truncate_up(&s);
    assert_eq!(r, format!("{}\u{80}", "a".repeat(255)));
    assert_eq!(r.len(), 257);
}

#[test]
fn truncate_up_keeps_short_strings() {
    assert_eq!(truncate_up("zz"), "zz");
}

#[test]
fn byte_order_is_unsigned_lexicographic() {
    assert!(lt_bytes(b"ab", b"b"));
    assert!(lt_bytes(b"a", b"ab"));
    assert!(!lt_bytes(b"ab", b"ab"));
    assert!(lt_bytes(b"\x7f", b"\x80"));
    assert!(!lt_bytes(b"", b""));
}
