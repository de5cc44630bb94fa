use dialogos::text::{
    chars_of, decimal_text, read_literal, read_number, strip_trailing_slashes, trim,
};

#[test]
fn numbers_are_written_in_decimal_and_read_back() {
    for (n, text) in [
        (0, "0"),
        (9, "9"),
        (10, "10"),
        (86_400, "86400"),
        (u64::MAX, "18446744073709551615"),
    ] {
        assert_eq!(decimal_text(n), text);
        assert_eq!(
            read_number(&chars_of(text), 0),
            (Some(n), text.len()),
            "{text}"
        );
    }
}

#[test]
fn a_number_ends_where_its_digits_do() {
    let chars = chars_of("ab12,3");
    assert_eq!(read_number(&chars, 2), (Some(12), 4));
    assert_eq!(read_number(&chars, 0), (None, 0));
    assert_eq!(read_number(&chars, 6), (None, 6));
    // One more than fits.
    let chars = chars_of("18446744073709551616}");
    assert_eq!(read_number(&chars, 0), (None, 20));
}

#[test]
fn a_literal_is_found_where_it_stands() {
    let chars = chars_of("λogos");
    assert_eq!(chars.len(), 5);
    assert_eq!(read_literal(&chars, 0, "λo"), Some(2));
    assert_eq!(read_literal(&chars, 1, "λo"), None);
    assert_eq!(read_literal(&chars, 3, "os!"), None);
    assert_eq!(read_literal(&chars, 5, ""), Some(5));
}

#[test]
fn whitespace_is_trimmed_at_both_ends_only() {
    assert_eq!(trim(""), "");
    assert_eq!(trim(" \t\n"), "");
    assert_eq!(trim("a b"), "a b");
    assert_eq!(trim("\u{2003}λ \u{85}"), "λ");
    // A zero-width space is no whitespace.
    assert_eq!(trim("\u{200b}a"), "\u{200b}a");
}

#[test]
fn slashes_are_stripped_at_the_end_only() {
    assert_eq!(strip_trailing_slashes("/a//b//"), "/a//b");
    assert_eq!(strip_trailing_slashes("///"), "");
    assert_eq!(strip_trailing_slashes("é"), "é");
}

#[test]
fn every_whitespace_character_is_trimmed_and_no_other() {
    for c in '\0'..=char::MAX {
        let text = format!("{c}");
        assert_eq!(trim(&text), text.trim(), "{c:?}");
    }
}
