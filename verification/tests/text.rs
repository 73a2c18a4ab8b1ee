use server_nano::text::{
    bytes_eq, chars_of, eq_ignore_ascii_case, find_char, skip_char, split_ranges, str_eq,
    substrings,
};

#[test]
fn chars_are_decoded_in_order() {
    assert_eq!(chars_of(""), Vec::<char>::new());
    assert_eq!(chars_of("a\u{e9}\u{1f600}"), vec!['a', '\u{e9}', '\u{1f600}']);
}

#[test]
fn texts_are_compared_letter_for_letter() {
    assert!(str_eq("", ""));
    assert!(str_eq("abc", "abc"));
    assert!(!str_eq("abc", "abd"));
    assert!(!str_eq("abc", "ab"));
    assert!(!str_eq("abc", "ABC"));
    assert!(bytes_eq(b"\x00\xff", b"\x00\xff"));
    assert!(!bytes_eq(b"\x00", b"\x00\x00"));
}

#[test]
fn case_of_ascii_letters_is_ignored() {
    assert!(eq_ignore_ascii_case("Content-Length", "content-length"));
    assert!(eq_ignore_ascii_case("AZaz", "azAZ"));
    assert!(!eq_ignore_ascii_case("a", "ab"));
    assert!(!eq_ignore_ascii_case("@", "`"));
    assert!(!eq_ignore_ascii_case("[", "{"));
    assert!(!eq_ignore_ascii_case("\u{c4}", "\u{e4}"));
    for (a, b) in [("Host", "hOST"), ("x-1", "X_1"), ("", ""), ("\u{e9}A", "\u{e9}a")] {
        assert_eq!(eq_ignore_ascii_case(a, b), a.eq_ignore_ascii_case(b));
    }
}

#[test]
fn find_gives_the_first_hit_in_the_range() {
    let chars = chars_of("a/b/c");
    assert_eq!(find_char(&chars, 0, 5, '/'), 1);
    assert_eq!(find_char(&chars, 1, 5, '/'), 1);
    assert_eq!(find_char(&chars, 2, 5, '/'), 3);
    assert_eq!(find_char(&chars, 4, 5, '/'), 5);
    assert_eq!(find_char(&chars, 2, 3, '/'), 3);
    assert_eq!(find_char(&chars, 2, 2, '/'), 2);
    assert_eq!(find_char(&chars, 0, 5, '?'), 5);
}

#[test]
fn skip_passes_the_leading_run() {
    let chars = chars_of("??a?");
    assert_eq!(skip_char(&chars, 0, 4, '?'), 2);
    assert_eq!(skip_char(&chars, 2, 4, '?'), 2);
    assert_eq!(skip_char(&chars, 3, 4, '?'), 4);
    assert_eq!(skip_char(&chars, 0, 1, '?'), 1);
}

#[test]
fn split_gives_the_non_empty_pieces() {
    let chars = chars_of("/a//bc/");
    assert_eq!(split_ranges(&chars, 0, chars.len(), '/'), vec![(1, 2), (4, 6)]);
    assert_eq!(split_ranges(&chars, 1, 5, '/'), vec![(1, 2), (4, 5)]);
    assert_eq!(split_ranges(&chars, 0, 1, '/'), Vec::new());
    assert_eq!(split_ranges(&chars, 3, 3, '/'), Vec::new());
    let plain = chars_of("abc");
    assert_eq!(split_ranges(&plain, 0, 3, '/'), vec![(0, 3)]);
}

#[test]
fn substrings_are_cut_by_characters() {
    let text = "\u{e9}a/\u{1f600}b";
    let chars = chars_of(text);
    let ranges = split_ranges(&chars, 0, chars.len(), '/');
    assert_eq!(substrings(text, &ranges), vec!["\u{e9}a", "\u{1f600}b"]);
    assert_eq!(substrings(text, &vec![(0, 0), (1, 2), (5, 5)]), vec!["", "a", ""]);
}
