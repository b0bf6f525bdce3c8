use project_picker::text::{
    chars_contain, chars_le, chars_of, find_char_from, is_whitespace, last_segment_of,
    strip_trailing_char, trim_spaces,
};

#[test]
fn find_char_counts_characters() {
    assert_eq!(find_char_from("abc/def", '/', 0), 3);
    assert_eq!(find_char_from("abc/def/", '/', 4), 7);
    assert_eq!(find_char_from("abc", '/', 0), 3);
    assert_eq!(find_char_from("", '/', 0), 0);
    assert_eq!(find_char_from("\u{e9}\u{e9}/x", '/', 0), 2);
    assert_eq!(find_char_from("/x", '/', 2), 2);
    assert_eq!(find_char_from("/x", '/', 9), 2);
    assert_eq!(find_char_from("a\nb\n", '\n', 2), 3);
}

#[test]
fn whitespace_characters() {
    for c in [' ', '\t', '\n', '\r', '\u{0B}', '\u{0C}', '\u{85}', '\u{A0}', '\u{1680}',
        '\u{2000}', '\u{200A}', '\u{2028}', '\u{2029}', '\u{202F}', '\u{205F}', '\u{3000}']
    {
        assert!(is_whitespace(c));
        assert!(c.is_whitespace());
    }
    for c in ['a', '~', '.', '/', '\u{200B}', '\u{08}', '\u{0E}', '\u{1F}', '\u{FEFF}'] {
        assert!(!is_whitespace(c));
        assert!(!c.is_whitespace());
    }
}

#[test]
fn whitespace_agrees_with_std_on_every_character() {
    let mut n: u32 = 0;
    while n <= 0x10FFFF {
        if let Some(c) = char::from_u32(n) {
            assert_eq!(is_whitespace(c), c.is_whitespace());
        }
        n += 1;
    }
}

#[test]
fn trim_spaces_at_both_ends() {
    assert_eq!(trim_spaces("  ~/code \t\r"), "~/code");
    assert_eq!(trim_spaces("a b"), "a b");
    assert_eq!(trim_spaces(" \t "), "");
    assert_eq!(trim_spaces(""), "");
    assert_eq!(trim_spaces("\u{3000}x\u{A0}"), "x");
}

#[test]
fn strip_trailing_run() {
    assert_eq!(strip_trailing_char("/a/b///", '/'), "/a/b");
    assert_eq!(strip_trailing_char("///", '/'), "");
    assert_eq!(strip_trailing_char("/a/b", '/'), "/a/b");
    assert_eq!(strip_trailing_char("", '/'), "");
}

#[test]
fn last_segment() {
    assert_eq!(last_segment_of("/a/b", '/'), "b");
    assert_eq!(last_segment_of("abc", '/'), "abc");
    assert_eq!(last_segment_of("/a/", '/'), "");
    assert_eq!(last_segment_of("", '/'), "");
}

#[test]
fn characters_of_a_string() {
    assert_eq!(chars_of("a\u{e9}/\u{10000}"), vec!['a', '\u{e9}', '/', '\u{10000}']);
    assert!(chars_of("").is_empty());
}

#[test]
fn order_agrees_with_std() {
    let words = ["", "a", "A", "ab", "abc", "abd", "b", "z", "\u{e9}", "\u{ffff}", "\u{10000}",
        "a\u{e9}", "a\u{10000}", "a\u{ffff}", "zz", "~", " "];
    for a in words {
        for b in words {
            assert_eq!(chars_le(&chars_of(a), &chars_of(b)), a <= b);
        }
    }
    assert!(chars_le(&chars_of("apple"), &chars_of("banana")));
    assert!(!chars_le(&chars_of("banana"), &chars_of("apple")));
    assert!(chars_le(&chars_of("app"), &chars_of("apple")));
    assert!(!chars_le(&chars_of("apple"), &chars_of("app")));
    assert!(chars_le(&chars_of("same"), &chars_of("same")));
}

#[test]
fn containment_agrees_with_std() {
    let words = ["", "a", "ab", "ba", "aab", "abab", "project", "pro", "jec", "ect", "ects",
        "\u{e9}", "caf\u{e9}", "af\u{e9}", "/home/u/proj", "u/p", "//"];
    for hay in words {
        for needle in words {
            assert_eq!(chars_contain(&chars_of(hay), &chars_of(needle)), hay.contains(needle));
        }
    }
    assert!(chars_contain(&chars_of("project"), &chars_of("jec")));
    assert!(!chars_contain(&chars_of("project"), &chars_of("pjt")));
    assert!(chars_contain(&chars_of(""), &chars_of("")));
    assert!(!chars_contain(&chars_of(""), &chars_of("a")));
}
