use rewrite::bytes::{is_bytes_at, is_char_at};

#[test]
fn bytes_are_found_where_they_stand() {
    let a = [1u8, 2, 3, 4, 5];
    assert!(is_bytes_at(&a, 0, &[1, 2]));
    assert!(is_bytes_at(&a, 1, &[2, 3, 4]));
    assert!(is_bytes_at(&a, 3, &[4, 5]));
    assert!(is_bytes_at(&a, 0, &a));
}

#[test]
fn bytes_are_not_found_where_others_stand() {
    let a = [1u8, 2, 3, 4, 5];
    assert!(!is_bytes_at(&a, 0, &[2]));
    assert!(!is_bytes_at(&a, 1, &[2, 4]));
    assert!(!is_bytes_at(&a, 2, &[3, 4, 6]));
}

#[test]
fn empty_bytes_are_found_up_to_the_end() {
    let a = [1u8, 2, 3];
    assert!(is_bytes_at(&a, 0, &[]));
    assert!(is_bytes_at(&a, 3, &[]));
    assert!(!is_bytes_at(&a, 4, &[]));
    assert!(is_bytes_at(&[], 0, &[]));
}

#[test]
fn range_past_the_end_is_no_match() {
    let a = [1u8, 2, 3];
    assert!(!is_bytes_at(&a, 2, &[3, 4]));
    assert!(!is_bytes_at(&a, 3, &[1]));
    assert!(!is_bytes_at(&a, 0, &[1, 2, 3, 4]));
    assert!(!is_bytes_at(&a, usize::MAX, &[1]));
    assert!(!is_bytes_at(&a, usize::MAX, &[]));
}

#[test]
fn chars_of_every_width_are_found() {
    let s = "a\u{e9}\u{20ac}\u{1f600}z";
    assert!(is_char_at(s, 0, 'a'));
    assert!(is_char_at(s, 1, '\u{e9}'));
    assert!(is_char_at(s, 3, '\u{20ac}'));
    assert!(is_char_at(s, 6, '\u{1f600}'));
    assert!(is_char_at(s, 10, 'z'));
}

#[test]
fn chars_are_not_found_elsewhere() {
    let s = "a\u{e9}\u{20ac}\u{1f600}z";
    assert!(!is_char_at(s, 0, 'b'));
    assert!(!is_char_at(s, 1, '\u{e8}'));
    assert!(!is_char_at(s, 2, '\u{e9}'));
    assert!(!is_char_at(s, 3, '\u{20ad}'));
    assert!(!is_char_at(s, 6, '\u{1f601}'));
    assert!(!is_char_at(s, 11, 'z'));
    assert!(!is_char_at(s, 10, '\u{e9}'));
    assert!(!is_char_at("", 0, 'a'));
    // The zero bytes behind a short encoding in the buffer take no part.
    assert!(is_char_at("a\0\0\0", 0, 'a'));
    assert!(!is_char_at("a\0\0\0", 0, '\0'));
    assert!(is_char_at("a\0\0\0", 1, '\0'));
}
