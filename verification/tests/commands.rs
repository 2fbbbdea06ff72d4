use whisper_notes::commands::{
    collapse_whitespace, find_command, get_commands, get_discard_phrases, is_discard_phrase,
    keep_letters, normalize_for_matching, process_text, process_text_with, replace_commands,
    should_discard, sort_longest_first,
};
use whisper_notes::pattern::{build_phrase_pattern, replace_phrase, strip_final_period};

#[test]
fn the_lists() {
    assert_eq!(get_commands(), vec![("command enter", "\r\n")]);
    assert_eq!(get_discard_phrases(), vec!["thank you", "thanks", "you"]);
}

#[test]
fn noise_is_discarded() {
    for s in [
        "",
        "thank you",
        "Thank you.",
        "THANKS!",
        " you ",
        "...you?!",
        "\u{3000}Thank you;:",
        "YOU",
    ] {
        assert!(should_discard(s), "{:?}", s);
    }
}

#[test]
fn other_utterances_are_kept() {
    for s in [
        "thank  you",
        "thank you very much",
        "your",
        "thank, you",
        "-you-",
        "hello",
        "command enter",
        " ",
        ".",
    ] {
        assert!(!should_discard(s), "{:?}", s);
    }
}

#[test]
fn noise_is_looked_up_in_lower_case() {
    assert!(is_discard_phrase("thanks."));
    assert!(!is_discard_phrase("Thanks."));
}

#[test]
fn normal_form() {
    assert_eq!(normalize_for_matching(""), "");
    assert_eq!(normalize_for_matching("Command, Enter!"), "command enter");
    assert_eq!(normalize_for_matching("  a1b  c"), "a b c");
    assert_eq!(normalize_for_matching("it's 5 o'clock"), "it s o clock");
    assert_eq!(normalize_for_matching("..."), "");
}

#[test]
fn normal_form_beyond_ascii() {
    assert_eq!(normalize_for_matching("\u{c9}COLE"), "\u{e9}cole");
    assert_eq!(normalize_for_matching("STRASSE \u{d6}L\u{2026}"), "strasse \u{f6}l");
}

#[test]
fn normal_form_is_its_own_normal_form() {
    for s in ["Command, Enter!", "A-b C", "x9y"] {
        let once = normalize_for_matching(s);
        assert_eq!(normalize_for_matching(&once), once);
    }
}

#[test]
fn letters_are_kept() {
    assert_eq!(keep_letters("a1\u{e9}-\u{4e2d}."), "a \u{e9} \u{4e2d} ");
    assert_eq!(collapse_whitespace("  a \t b  "), "a b");
}

#[test]
fn ascii_letters_and_cases_are_those_of_the_standard_library() {
    for n in 0..128u8 {
        let c = n as char;
        let expected = if c.is_ascii_alphabetic() { c } else { ' ' };
        assert_eq!(keep_letters(&c.to_string()), expected.to_string());
        assert_eq!(c.to_string().to_lowercase(), c.to_ascii_lowercase().to_string());
    }
}

#[test]
fn final_period_goes() {
    assert_eq!(strip_final_period("Hello."), "Hello");
    assert_eq!(strip_final_period("Hello. \n"), "Hello");
    assert_eq!(strip_final_period("Hello.\u{2003}"), "Hello");
    assert_eq!(strip_final_period("Hello.."), "Hello.");
    assert_eq!(strip_final_period("Hello. ."), "Hello. ");
    assert_eq!(strip_final_period("a.b"), "a.b");
    assert_eq!(strip_final_period("Hello "), "Hello ");
    assert_eq!(strip_final_period("."), "");
    assert_eq!(strip_final_period(""), "");
}

#[test]
fn phrase_patterns() {
    assert_eq!(
        build_phrase_pattern("command enter"),
        r"(?i)\bcommand[^a-zA-Z]+enter\b[,.\s]*"
    );
    assert_eq!(
        build_phrase_pattern(" a.b  c-d "),
        r"(?i)\ba\.b[^a-zA-Z]+c\-d\b[,.\s]*"
    );
    assert_eq!(build_phrase_pattern(""), r"(?i)\b\b[,.\s]*");
    assert_eq!(
        build_phrase_pattern(r"\.+*?()|[]{}^$#&-~"),
        r"(?i)\b\\\.\+\*\?\(\)\|\[\]\{\}\^\$\#\&\-\~\b[,.\s]*"
    );
}

#[test]
fn empty_utterance() {
    assert_eq!(process_text(""), "");
    assert_eq!(process_text("."), "");
}

#[test]
fn plain_text_passes() {
    assert_eq!(process_text("Hello world."), "Hello world");
    assert_eq!(process_text("Hello world"), "Hello world");
    assert_eq!(process_text("the commander enters."), "the commander enters");
    assert_eq!(process_text("command center"), "command center");
    assert_eq!(process_text("commandenter now"), "commandenter now");
    assert_eq!(process_text("caf\u{e9}."), "caf\u{e9}");
}

#[test]
fn command_alone_becomes_a_line_end() {
    for s in [
        "command enter",
        "Command enter.",
        "COMMAND, ENTER!",
        "command 1 enter",
        "...command - enter...",
        "1command enter2",
    ] {
        assert_eq!(process_text(s), "\r\n", "{:?}", s);
    }
}

#[test]
fn command_within_text_becomes_a_line_end() {
    assert_eq!(
        process_text("first line command enter second line."),
        "first line \r\nsecond line"
    );
    assert_eq!(
        process_text("one, Command, enter. Two."),
        "one, \r\nTwo"
    );
    assert_eq!(
        process_text("a command enter b COMMAND ENTER c"),
        "a \r\nb \r\nc"
    );
    assert_eq!(process_text("stop command enter"), "stop \r\n");
    assert_eq!(process_text("command enter, go"), "\r\ngo");
    assert_eq!(process_text("command enter command enter"), "\r\n\r\n");
}

#[test]
fn command_needs_word_boundaries_within_text() {
    assert_eq!(process_text("my_command enter now"), "my_command enter now");
    assert_eq!(process_text("x command enters"), "x command enters");
    assert_eq!(process_text("x command enter_"), "x command enter_");
}

#[test]
fn command_within_text_beyond_ascii() {
    assert_eq!(
        process_text("d\u{e9}j\u{e0} command\u{2026}enter vu."),
        "d\u{e9}j\u{e0} \r\nvu"
    );
    assert_eq!(
        process_text("\u{e9}command enter x"),
        "\u{e9}command enter x"
    );
}

#[test]
fn letters_in_disguise_part_the_words_of_a_command() {
    for s in [
        "x command \u{212a} enter y",
        "x command \u{17f} enter y",
        "x command k enter y",
        "x \u{e9}command enter y",
        "x command enter\u{301} y",
    ] {
        assert_eq!(process_text(s), s);
    }
    assert_eq!(process_text("x \u{201c}command enter\u{201d} y"), "x \u{201c}\r\n\u{201d} y");
    assert_eq!(process_text("x command \u{e9} enter y"), "x \r\ny");
}

#[test]
fn text_without_the_word_passes() {
    for s in ["enter", "Comma nd enter", "I entered; it took 5 s", "a. b"] {
        assert_eq!(process_text(s), s);
        assert_eq!(process_text(&format!("{}.", s)), s);
    }
}

#[test]
fn commands_are_sorted_by_length() {
    let commands = vec![("ab", "1"), ("abcd", "2"), ("cd", "3"), ("abc", "4"), ("", "5")];
    assert_eq!(
        sort_longest_first(&commands),
        vec![("abcd", "2"), ("abc", "4"), ("ab", "1"), ("cd", "3"), ("", "5")]
    );
    // The length is that of the bytes.
    assert_eq!(
        sort_longest_first(&vec![("abc", "1"), ("\u{e9}\u{e9}", "2")]),
        vec![("\u{e9}\u{e9}", "2"), ("abc", "1")]
    );
}

#[test]
fn other_commands() {
    let commands = vec![("new", "N"), ("new line", "\n"), ("full stop", ".")];
    assert_eq!(process_text_with("New line.", &commands), "\n");
    assert_eq!(process_text_with("Full, stop", &commands), ".");
    assert_eq!(
        process_text_with("one new line two new three full stop", &commands),
        "one \ntwo Nthree ."
    );
    assert_eq!(process_text_with("abc.", &vec![]), "abc");
}

#[test]
fn first_matching_command_counts() {
    let commands = vec![("a-b", "1"), ("A b", "2")];
    assert_eq!(find_command(&"a b".to_string(), &commands), Some("1"));
    assert_eq!(find_command(&"b".to_string(), &commands), None);
    assert_eq!(
        replace_commands("x a b y".to_string(), &commands),
        "x 2y"
    );
}

#[test]
fn phrases_are_replaced() {
    assert_eq!(
        replace_phrase("say go home, now".to_string(), "go home", "G "),
        "say G now"
    );
    assert_eq!(
        replace_phrase("a.b aXb".to_string(), "a.b", "-"),
        "-aXb"
    );
}
