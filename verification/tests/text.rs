use whisper_notes::text::{
    chars_of, is_blank, is_whitespace, join, same_text, split_lines, split_words, string_of, trim,
    Edges,
};

fn texts(items: &[&str]) -> Vec<String> {
    items.iter().map(|s| s.to_string()).collect()
}

#[test]
fn whitespace_is_unicode_white_space() {
    for n in 0..=0x10ffffu32 {
        if let Some(c) = char::from_u32(n) {
            assert_eq!(is_whitespace(c), c.is_whitespace(), "{:x}", n);
        }
    }
}

#[test]
fn characters_and_back() {
    let chars = chars_of("a\u{e9}\u{1f600}b");
    assert_eq!(chars, vec!['a', '\u{e9}', '\u{1f600}', 'b']);
    assert_eq!(string_of(&chars, 1, 3), "\u{e9}\u{1f600}");
    assert_eq!(string_of(&chars, 2, 2), "");
}

#[test]
fn texts_are_compared_by_their_characters() {
    assert!(same_text("", ""));
    assert!(same_text("abc", "abc"));
    assert!(!same_text("abc", "ab"));
    assert!(!same_text("abc", "abd"));
}

#[test]
fn blank_texts() {
    assert!(is_blank(""));
    assert!(is_blank(" \t\r\n\u{3000}"));
    assert!(!is_blank(" . "));
}

#[test]
fn trimming_agrees_with_the_standard_library() {
    let marks = |c: char| c.is_whitespace() || ".,!?;:".contains(c);
    for s in [
        "",
        "   ",
        "a",
        "  a b  ",
        "\u{a0}a\u{2003}",
        "..a.b!?",
        " ,; ",
        "x:",
        ":x",
        "-a-",
    ] {
        assert_eq!(trim(s, &Edges::White), s.trim());
        assert_eq!(trim(s, &Edges::WhiteAndMarks), s.trim_matches(marks));
    }
}

#[test]
fn edges_around_a_text_do_not_matter() {
    for s in ["you", "a. b", ""] {
        let padded = format!(" ,\t{}!? ", s);
        assert_eq!(
            trim(&padded, &Edges::WhiteAndMarks),
            trim(s, &Edges::WhiteAndMarks)
        );
    }
}

#[test]
fn words_agree_with_the_standard_library() {
    for s in ["", "  ", "one", " one  two\tthree\n", "a\u{2003}b", "a b "] {
        let expected: Vec<&str> = s.split_whitespace().collect();
        assert_eq!(split_words(s), expected);
    }
}

#[test]
fn lines_agree_with_the_standard_library() {
    for s in [
        "",
        "\n",
        "\r\n",
        "\r",
        "a",
        "a\n",
        "a\r\n",
        "a\nb",
        "a\n\nb\r\nc\r",
        "a\r\r\n",
        "\n\n",
        "a\rb\n",
    ] {
        let expected: Vec<&str> = s.lines().collect();
        assert_eq!(split_lines(s), expected, "{:?}", s);
    }
}

#[test]
fn lines_are_read_back() {
    let lines = texts(&["{\"text\":\"one\"}", "", "{}"]);
    let written: String = lines.iter().map(|l| format!("{}\n", l)).collect();
    assert_eq!(split_lines(&written), lines);
}

#[test]
fn parts_are_joined() {
    assert_eq!(join(&texts(&[]), ", "), "");
    assert_eq!(join(&texts(&["a"]), ", "), "a");
    assert_eq!(join(&texts(&["a", "", "c"]), ", "), "a, , c");
}

#[test]
fn lines_of_two_texts() {
    for x in ["", "\n", "a\n", "a\r\nb\n"] {
        for y in ["", "c", "c\nd\n", "\n"] {
            let mut expected = split_lines(x);
            expected.extend(split_lines(y));
            assert_eq!(split_lines(&format!("{}{}", x, y)), expected);
        }
    }
}
