use rewrite::Rewrite;
use std::borrow::Cow;

#[test]
fn str_write_same() {
    let s = "abc";
    let mut r = Rewrite::new(s);
    r.push('a');
    r.push_str("bc");
    let d: Cow<str> = r.into();
    assert_eq!(d, Cow::Borrowed(s))
}

#[test]
fn str_write_less() {
    let s = "abc";
    let mut r = Rewrite::new(s);
    r.push('a');
    r.push_str("b");
    let d: Cow<str> = r.into();
    assert_eq!(d, Cow::Borrowed(&s[..2]))
}

#[test]
fn str_write_more() {
    let s = "abc";
    let mut r = Rewrite::new(s);
    r.push('a');
    r.push_str("bcd");
    let d: Cow<str> = r.into();
    assert_eq!(d, Cow::<str>::Owned("abcd".to_owned()))
}

#[test]
fn str_write_different() {
    let s = "abc";
    let mut r = Rewrite::new(s);
    r.push('a');
    r.push_str("bd");
    let d: Cow<str> = r.into();
    assert_eq!(d, Cow::<str>::Owned("abd".to_owned()))
}

#[test]
fn same_text_borrows_the_whole_input() {
    let s = String::from("abc");
    let mut r = Rewrite::new(s.as_str());
    r.push('a');
    r.push_str("bc");
    let d: Cow<str> = r.into();
    assert!(matches!(d, Cow::Borrowed(_)));
    assert_eq!(d.as_ptr(), s.as_ptr());
    assert_eq!(d.len(), s.len());
}

#[test]
fn shorter_text_borrows_a_prefix() {
    let s = String::from("abc");
    let mut r = Rewrite::new(s.as_str());
    r.push('a');
    r.push_str("b");
    let d: Cow<str> = r.into();
    assert!(matches!(d, Cow::Borrowed(_)));
    assert_eq!(d.as_ptr(), s.as_ptr());
    assert_eq!(&*d, "ab");
}

#[test]
fn longer_text_is_owned() {
    let mut r = Rewrite::new("abc");
    r.push('a');
    r.push_str("bcd");
    let d: Cow<str> = r.into();
    assert!(matches!(d, Cow::Owned(_)));
    assert_eq!(&*d, "abcd");
}

#[test]
fn different_text_is_owned() {
    let mut r = Rewrite::new("abc");
    r.push('a');
    r.push_str("bd");
    let d: Cow<str> = r.into();
    assert!(matches!(d, Cow::Owned(_)));
    assert_eq!(&*d, "abd");
}

#[test]
fn nothing_written_borrows_the_empty_prefix() {
    let s = "abc";
    let r = Rewrite::new(s);
    let d: Cow<str> = r.into();
    assert!(matches!(d, Cow::Borrowed(_)));
    assert_eq!(&*d, "");
}

#[test]
fn empty_input_and_nothing_written() {
    let r = Rewrite::new("");
    let d: Cow<str> = r.into();
    assert!(matches!(d, Cow::Borrowed(_)));
    assert_eq!(&*d, "");
}

#[test]
fn empty_input_and_something_written() {
    let mut r = Rewrite::new("");
    r.push('x');
    let d: Cow<str> = r.into();
    assert!(matches!(d, Cow::Owned(_)));
    assert_eq!(&*d, "x");
}

#[test]
fn empty_slice_keeps_borrowing() {
    let mut r = Rewrite::new("abc");
    r.push_str("");
    r.push_str("abc");
    r.push_str("");
    let d: Cow<str> = r.into();
    assert!(matches!(d, Cow::Borrowed(_)));
    assert_eq!(&*d, "abc");
}

#[test]
fn divergence_at_the_first_write_copies_nothing() {
    let mut r = Rewrite::new("abc");
    r.push('x');
    let d: Cow<str> = r.into();
    assert!(matches!(d, Cow::Owned(_)));
    assert_eq!(&*d, "x");
}

#[test]
fn divergence_keeps_what_was_matched_before() {
    let mut r = Rewrite::new("hello world");
    r.push_str("hello");
    r.push(' ');
    r.push_str("there");
    r.push('!');
    let d: Cow<str> = r.into();
    assert!(matches!(d, Cow::Owned(_)));
    assert_eq!(&*d, "hello there!");
}

#[test]
fn diverged_rewrite_never_borrows_again() {
    let mut r = Rewrite::new("abc");
    r.push('x');
    r.push_str("bc");
    let d: Cow<str> = r.into();
    assert!(matches!(d, Cow::Owned(_)));
    assert_eq!(&*d, "xbc");

    let mut r = Rewrite::new("abc");
    r.push_str("abcd");
    r.push_str("abc");
    let d: Cow<str> = r.into();
    assert!(matches!(d, Cow::Owned(_)));
    assert_eq!(&*d, "abcdabc");
}

#[test]
fn grouping_of_writes_does_not_matter() {
    let original = "abcdef";
    for expected in ["abcdef", "abc", "abcdefg", "abXdef", ""] {
        let mut by_char = Rewrite::new(original);
        for c in expected.chars() {
            by_char.push(c);
        }
        let by_char: Cow<str> = by_char.into();

        let mut by_slice = Rewrite::new(original);
        by_slice.push_str(expected);
        let by_slice: Cow<str> = by_slice.into();

        let mut mixed = Rewrite::new(original);
        let mut chars = expected.chars();
        if let Some(c) = chars.next() {
            mixed.push(c);
        }
        mixed.push_str(chars.as_str());
        let mixed: Cow<str> = mixed.into();

        assert_eq!(by_char, by_slice);
        assert_eq!(by_char, mixed);
        assert_eq!(&*by_char, expected);
        assert_eq!(matches!(by_char, Cow::Borrowed(_)), matches!(by_slice, Cow::Borrowed(_)));
        assert_eq!(matches!(by_char, Cow::Borrowed(_)), matches!(mixed, Cow::Borrowed(_)));
        assert_eq!(matches!(by_char, Cow::Borrowed(_)), original.starts_with(expected));
    }
}

#[test]
fn characters_of_every_width_are_matched() {
    let s = "a\u{e9}\u{20ac}\u{1f600}z";
    let mut r = Rewrite::new(s);
    r.push('a');
    r.push('\u{e9}');
    r.push('\u{20ac}');
    r.push('\u{1f600}');
    let d: Cow<str> = r.into();
    assert!(matches!(d, Cow::Borrowed(_)));
    assert_eq!(&*d, "a\u{e9}\u{20ac}\u{1f600}");
    assert_eq!(d.len(), 10);
}

#[test]
fn character_that_shares_its_first_byte_diverges() {
    // U+00E9 is C3 A9, U+00E8 is C3 A8.
    let mut r = Rewrite::new("\u{e9}t\u{e9}");
    r.push('\u{e8}');
    r.push_str("t\u{e9}");
    let d: Cow<str> = r.into();
    assert!(matches!(d, Cow::Owned(_)));
    assert_eq!(&*d, "\u{e8}t\u{e9}");
}

#[test]
fn comparison_is_by_bytes_not_by_appearance() {
    // The same letter, once as one scalar and once as a letter and a combining accent.
    let mut r = Rewrite::new("caf\u{e9}");
    r.push_str("cafe\u{301}");
    let d: Cow<str> = r.into();
    assert!(matches!(d, Cow::Owned(_)));
    assert_eq!(&*d, "cafe\u{301}");
}

#[test]
fn write_that_runs_past_the_end_diverges() {
    let mut r = Rewrite::new("ab");
    r.push_str("a");
    r.push_str("bc");
    let d: Cow<str> = r.into();
    assert!(matches!(d, Cow::Owned(_)));
    assert_eq!(&*d, "abc");

    let mut r = Rewrite::new("a");
    r.push('a');
    r.push('\u{1f600}');
    let d: Cow<str> = r.into();
    assert!(matches!(d, Cow::Owned(_)));
    assert_eq!(&*d, "a\u{1f600}");
}

#[test]
fn borrowed_cow_input_borrows_while_it_matches() {
    let s = String::from("abc");
    let mut r = Rewrite::new(Cow::Borrowed(s.as_str()));
    r.push('a');
    r.push_str("b");
    let d: Cow<str> = r.into();
    assert!(matches!(d, Cow::Borrowed(_)));
    assert_eq!(d.as_ptr(), s.as_ptr());
    assert_eq!(&*d, "ab");

    let mut r = Rewrite::new(Cow::Borrowed(s.as_str()));
    r.push_str("abc");
    let d: Cow<str> = r.into();
    assert!(matches!(d, Cow::Borrowed(_)));
    assert_eq!(&*d, "abc");
}

#[test]
fn borrowed_cow_input_is_owned_after_divergence() {
    let mut r = Rewrite::new(Cow::Borrowed("abc"));
    r.push('a');
    r.push_str("bd");
    let d: Cow<str> = r.into();
    assert!(matches!(d, Cow::Owned(_)));
    assert_eq!(&*d, "abd");
}

#[test]
fn owned_cow_input_is_cut_to_the_output() {
    let s = String::from("a\u{e9}bc");
    let p = s.as_ptr();
    let mut r = Rewrite::new(Cow::<str>::Owned(s));
    r.push('a');
    r.push('\u{e9}');
    let d: Cow<str> = r.into();
    assert!(matches!(d, Cow::Owned(_)));
    assert_eq!(&*d, "a\u{e9}");
    assert_eq!(d.as_ptr(), p);
}

#[test]
fn owned_cow_input_is_handed_back_whole() {
    let mut r = Rewrite::new(Cow::<str>::Owned(String::from("abc")));
    r.push_str("ab");
    r.push('c');
    let d: Cow<str> = r.into();
    assert!(matches!(d, Cow::Owned(_)));
    assert_eq!(&*d, "abc");

    let r = Rewrite::new(Cow::<str>::Owned(String::from("abc")));
    let d: Cow<str> = r.into();
    assert!(matches!(d, Cow::Owned(_)));
    assert_eq!(&*d, "");
}

#[test]
fn owned_cow_input_is_owned_after_divergence() {
    let mut r = Rewrite::new(Cow::<str>::Owned(String::from("abc")));
    r.push_str("ab");
    r.push_str("cd");
    r.push('e');
    let d: Cow<str> = r.into();
    assert!(matches!(d, Cow::Owned(_)));
    assert_eq!(&*d, "abcde");
}

#[test]
fn well_formed_changes_nothing() {
    let mut r = Rewrite::new("h\u{e9}llo");
    r.well_formed();
    r.push('h');
    r.push('\u{e9}');
    r.well_formed();
    r.push('x');
    r.well_formed();
    let d: Cow<str> = r.into();
    assert!(matches!(d, Cow::Owned(_)));
    assert_eq!(&*d, "h\u{e9}x");
    assert_eq!(d.len(), 4);
}
