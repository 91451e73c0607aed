use ssh_impl::utils::text::{
    chars_equal, chars_of, is_whitespace, split_lines, text_equal, trim_range, trimmed,
};

fn chars(text: &str) -> Vec<char> {
    text.chars().collect()
}

fn lines_of(text: &str) -> Vec<String> {
    split_lines(&chars(text)).into_iter().map(|line| line.into_iter().collect()).collect()
}

fn trim_of(text: &str) -> String {
    trimmed(&chars(text)).into_iter().collect()
}

#[test]
fn chars_of_gives_the_characters_in_order() {
    assert_eq!(chars_of("abc"), vec!['a', 'b', 'c']);
    assert_eq!(chars_of(""), Vec::<char>::new());
    assert_eq!(chars_of("\u{e9}\u{4e16}!"), vec!['\u{e9}', '\u{4e16}', '!']);
}

#[test]
fn whitespace_is_what_the_standard_library_calls_whitespace() {
    for code in 0u32..=0x10FFFF {
        if let Some(c) = char::from_u32(code) {
            assert_eq!(is_whitespace(c), c.is_whitespace(), "U+{:04X}", code);
        }
    }
}

#[test]
fn trimming_removes_whitespace_at_both_ends_only() {
    assert_eq!(trim_of("  a b \t\r\n"), "a b");
    assert_eq!(trim_of("abc"), "abc");
    assert_eq!(trim_of(""), "");
    assert_eq!(trim_of(" \n\t "), "");
    assert_eq!(trim_of("\u{a0}x\u{3000}"), "x");
    assert_eq!(trim_of("x\u{200b}"), "x\u{200b}");
}

#[test]
fn trimming_agrees_with_the_standard_library() {
    for text in ["", " ", "a", " a", "a ", "  a  b  ", "\t\n\r a\u{2028}", "\u{1680}\u{2000}z\u{205f}\u{202f}"] {
        assert_eq!(trim_of(text), text.trim());
    }
}

#[test]
fn trim_range_points_at_the_trimmed_part() {
    assert_eq!(trim_range(&chars("  ab ")), (2, 4));
    assert_eq!(trim_range(&chars("ab")), (0, 2));
    let (start, end) = trim_range(&chars("   "));
    assert_eq!(start, end);
    assert_eq!(trim_range(&chars("")), (0, 0));
}

#[test]
fn lines_are_split_at_line_feeds() {
    assert_eq!(lines_of("a\nb\nc"), vec!["a", "b", "c"]);
    assert_eq!(lines_of("a\nb\n"), vec!["a", "b"]);
    assert_eq!(lines_of(""), Vec::<String>::new());
    assert_eq!(lines_of("\n"), vec![""]);
    assert_eq!(lines_of("\n\n"), vec!["", ""]);
    assert_eq!(lines_of("a\n\nb"), vec!["a", "", "b"]);
    assert_eq!(lines_of("only"), vec!["only"]);
}

#[test]
fn carriage_return_before_a_line_feed_belongs_to_the_line_ending() {
    assert_eq!(lines_of("a\r\nb\r\n"), vec!["a", "b"]);
    assert_eq!(lines_of("\r\n"), vec![""]);
    assert_eq!(lines_of("a\r\r\nb"), vec!["a\r", "b"]);
    assert_eq!(lines_of("a\rb\n"), vec!["a\rb"]);
}

#[test]
fn carriage_return_at_the_end_of_an_unterminated_line_stays() {
    assert_eq!(lines_of("foo\nbar\n\r\nbaz\r"), vec!["foo", "bar", "", "baz\r"]);
    assert_eq!(lines_of("\r"), vec!["\r"]);
}

#[test]
fn lines_agree_with_the_standard_library() {
    for text in [
        "",
        "\n",
        "\r",
        "\r\n",
        "a",
        "a\n",
        "a\r\n",
        "a\r",
        "a\n\r",
        "a\n\r\n",
        "\n\na\n\n",
        "x y\nz\r\n\r\n w \r",
        "localhost 00ff\nexample 1234\n",
    ] {
        let expected: Vec<String> = text.lines().map(|line| line.to_string()).collect();
        assert_eq!(lines_of(text), expected, "{:?}", text);
    }
}

#[test]
fn character_and_text_comparison_is_exact() {
    assert!(chars_equal(&chars("abc"), &chars("abc")));
    assert!(!chars_equal(&chars("abc"), &chars("abd")));
    assert!(!chars_equal(&chars("abc"), &chars("ab")));
    assert!(chars_equal(&chars(""), &chars("")));
    assert!(text_equal("pw", "pw"));
    assert!(!text_equal("pw", "Pw"));
    assert!(!text_equal("pw", "pw "));
    assert!(text_equal("", ""));
    assert!(text_equal("\u{e9}", "\u{e9}"));
    assert!(!text_equal("\u{e9}", "e\u{301}"));
}
