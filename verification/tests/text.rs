use skynet_review::text::{
    chars_equal, chars_of, is_whitespace_char, range_has_prefix, split_chars, trim_range,
};

#[test]
fn whitespace_agrees_with_the_standard_library() {
    let mut code: u32 = 0;
    while code <= 0x10FFFF {
        if let Some(c) = char::from_u32(code) {
            assert_eq!(is_whitespace_char(c), c.is_whitespace(), "U+{:04X}", code);
        }
        code += 1;
    }
}

#[test]
fn chars_of_lists_the_characters() {
    assert_eq!(chars_of(""), Vec::<char>::new());
    assert_eq!(chars_of("a\u{e9}\u{1F600}"), vec!['a', '\u{e9}', '\u{1F600}']);
}

#[test]
fn trim_range_agrees_with_the_standard_library() {
    let samples = [
        "",
        " ",
        "a",
        "  a b  ",
        "\t\r\n x \u{a0}\u{3000}",
        "\u{2003}lead",
        "trail\u{1680}",
        "\u{200b}zero width is kept\u{200b}",
        "\u{b}\u{c}both\u{85}",
    ];
    for sample in samples {
        let chars = chars_of(sample);
        let (lo, hi) = trim_range(&chars, 0, chars.len());
        let got: String = chars[lo..hi].iter().collect();
        assert_eq!(got, sample.trim(), "{:?}", sample);
    }
}

#[test]
fn trim_range_stays_inside_the_range() {
    let chars = chars_of("  ab  cd  ");
    assert_eq!(trim_range(&chars, 2, 6), (2, 4));
    assert_eq!(trim_range(&chars, 4, 6), (6, 6));
    assert_eq!(trim_range(&chars, 3, 3), (3, 3));
    assert_eq!(trim_range(&chars, 0, 10), (2, 8));
}

#[test]
fn range_has_prefix_compares_in_place() {
    let chars = chars_of("xxdata: y");
    let marker = chars_of("data: ");
    assert!(range_has_prefix(&chars, 2, 9, &marker));
    assert!(!range_has_prefix(&chars, 0, 9, &marker));
    assert!(!range_has_prefix(&chars, 2, 7, &marker));
    assert!(range_has_prefix(&chars, 2, 8, &marker));
    assert!(range_has_prefix(&chars, 5, 5, &[]));
}

#[test]
fn split_chars_keeps_empty_pieces() {
    let pieces = |text: &str| -> Vec<String> {
        split_chars(&chars_of(text), '/').into_iter().map(|p| p.into_iter().collect()).collect()
    };
    assert_eq!(pieces(""), vec!["".to_string()]);
    assert_eq!(pieces("a"), vec!["a".to_string()]);
    assert_eq!(pieces("/"), vec!["".to_string(), "".to_string()]);
    assert_eq!(pieces("/a//b/"), vec!["", "a", "", "b", ""]);
    for sample in ["", "/", "a/b", "//x/", "no separator"] {
        let expected: Vec<String> = sample.split('/').map(str::to_string).collect();
        assert_eq!(pieces(sample), expected);
    }
}

#[test]
fn chars_equal_compares_texts() {
    assert!(chars_equal(&[], &[]));
    assert!(chars_equal(&['a', 'b'], &['a', 'b']));
    assert!(!chars_equal(&['a', 'b'], &['a', 'c']));
    assert!(!chars_equal(&['a'], &['a', 'b']));
}
