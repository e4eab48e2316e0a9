use nca::text::{
    begins_with, chars_before, chars_of, contains_chars, eq_ignore_case, offset_of_char,
    push_decimal, push_signed_decimal, same_text, trim, trim_slashes, trim_start,
};

fn contains(hay: &str, needle: &str) -> bool {
    contains_chars(&chars_of(hay), &chars_of(needle))
}

#[test]
fn white_space_is_that_of_unicode() {
    let mut spaces = String::new();
    let mut others = String::new();
    for c in (0..=0x10ffff).filter_map(char::from_u32) {
        let one = c.to_string();
        if trim(&one).is_empty() {
            spaces.push(c);
        } else {
            others.push(c);
        }
        if c as u32 > 0x4000 {
            break;
        }
    }
    assert!(spaces.chars().all(char::is_whitespace));
    assert!(!others.chars().any(char::is_whitespace));
    assert_eq!(trim_start(&spaces), "");
}

#[test]
fn trimming() {
    assert_eq!(trim(" \u{a0}a b\n"), "a b");
    assert_eq!(trim_start(" a "), "a ");
    assert_eq!(trim_slashes("//a/b"), "a/b");
    assert_eq!(trim_slashes("a"), "a");
}

#[test]
fn searching() {
    assert!(contains("hello", "ell"));
    assert!(contains("hello", ""));
    assert!(contains("", ""));
    assert!(!contains("hello", "elo"));
    assert!(!contains("he", "hello"));
    assert!(begins_with(&chars_of("hello"), &chars_of("he")));
    assert!(!begins_with(&chars_of("hello"), &chars_of("el")));
}

#[test]
fn comparing() {
    assert!(same_text("\u{e9}", "\u{e9}"));
    assert!(!same_text("a", "A"));
    assert!(eq_ignore_case("AbZ[", "aBz["));
    assert!(!eq_ignore_case("\u{c9}", "\u{e9}"));
    assert!(!eq_ignore_case("@", "`"));
}

#[test]
fn numbers_in_decimal() {
    let mut out = String::new();
    push_decimal(&mut out, 0);
    out.push(' ');
    push_decimal(&mut out, 1009);
    out.push(' ');
    push_signed_decimal(&mut out, -12);
    out.push(' ');
    push_signed_decimal(&mut out, i32::MAX);
    assert_eq!(out, "0 1009 -12 2147483647");
}

#[test]
fn offsets_lead_back_to_their_characters() {
    let text = "a\u{e9}\u{20ac}\u{1f600}z";
    for (k, (byte, _)) in text.char_indices().enumerate() {
        assert_eq!(offset_of_char(text, k), byte);
        assert_eq!(chars_before(text, byte), k);
    }
    assert_eq!(offset_of_char(text, 5), 11);
    assert_eq!(offset_of_char(text, 99), 11);
    assert_eq!(chars_before(text, 11), 5);
}
