use whisper_notes::commands::{keep_letters, normalize_for_matching, process_text, should_discard};
use whisper_notes::text::is_whitespace;

fn every_char() -> impl Iterator<Item = char> {
    (0..=0x10ffffu32).filter_map(char::from_u32)
}

#[test]
fn lower_case_forms_of_characters() {
    for c in every_char() {
        let form = c.to_string().to_lowercase();
        match c {
            '\u{130}' => assert_eq!(form, "i\u{307}"),
            '\u{3a3}' => assert_eq!(form, "\u{3c3}"),
            _ => assert_eq!(form.chars().count(), 1, "{:?}", c),
        }
        for d in form.chars() {
            assert_eq!(d.to_string().to_lowercase(), d.to_string(), "{:?}", c);
        }
        if is_whitespace(c) {
            assert_eq!(form, c.to_string());
        }
    }
}

#[test]
fn lower_case_goes_character_by_character() {
    for c in every_char().filter(|c| *c != '\u{3a3}') {
        let form = c.to_string().to_lowercase();
        let text = format!("A{}\u{c9}{}.", c, c);
        assert_eq!(text.to_lowercase(), format!("a{}\u{e9}{}.", form, form), "{:?}", c);
    }
}

#[test]
fn white_space_parts_words_with_a_sigma() {
    let word = "\u{39f}\u{394}\u{39f}\u{3a3}";
    let low = "\u{3bf}\u{3b4}\u{3bf}\u{3c2}";
    assert_eq!(word.to_lowercase(), low);
    for c in every_char().filter(|c| is_whitespace(*c)) {
        let text = format!("{}{}{}", word, c, word);
        assert_eq!(text.to_lowercase(), format!("{}{}{}", low, c, low));
        let text = format!("{}{}\u{3a3}", word, c);
        assert_eq!(text.to_lowercase(), format!("{}{}\u{3c3}", low, c));
    }
}

#[test]
fn white_space_is_no_letter_and_sigmas_are() {
    for c in every_char().filter(|c| is_whitespace(*c)) {
        assert_eq!(keep_letters(&c.to_string()), " ");
    }
    assert_eq!(keep_letters("\u{3c3}\u{3c2}"), "\u{3c3}\u{3c2}");
}

#[test]
fn normal_forms_of_other_scripts_are_their_own() {
    for s in [
        "\u{39f}\u{394}\u{39f}\u{3a3}, \u{3a3}!",
        "\u{130}stanbul 2024",
        "\u{212a}elvin",
        "\u{c9}COLE\u{3000}\u{d6}l",
    ] {
        let once = normalize_for_matching(s);
        assert_eq!(normalize_for_matching(&once), once);
    }
    assert_eq!(
        normalize_for_matching("\u{39f}\u{394}\u{39f}\u{3a3}, \u{3a3}!"),
        "\u{3bf}\u{3b4}\u{3bf}\u{3c2} \u{3c3}"
    );
}

#[test]
fn normal_form_of_two_texts() {
    for (a, b) in [
        ("Hello,", "World!"),
        ("\u{39f}\u{3a3}", "\u{3a3}"),
        ("\u{c9}t\u{e9} 1", "2 d\u{e9}j\u{e0}"),
    ] {
        assert_eq!(
            normalize_for_matching(&format!("{} {}", a, b)),
            format!("{} {}", normalize_for_matching(a), normalize_for_matching(b))
        );
    }
    assert_eq!(normalize_for_matching("... Hello"), "hello");
    assert_eq!(normalize_for_matching("Hello 12"), "hello");
}

#[test]
fn normal_form_is_empty_without_letters() {
    for s in ["", " ", "12 34", "\u{2026}!?", "\u{3000}"] {
        assert_eq!(normalize_for_matching(s), "");
    }
    assert_eq!(normalize_for_matching("1a2"), "a");
}

#[test]
fn command_alone_with_other_characters_around_it() {
    for s in [
        "\u{201c}Command, Enter.\u{201d}",
        "\u{2026}COMMAND\u{2014}ENTER\u{2026} .",
        "command enter 42.",
        "\u{3000}command\u{3000}enter\u{3002}",
    ] {
        assert_eq!(normalize_for_matching(s), "command enter");
        assert_eq!(process_text(s), "\r\n", "{:?}", s);
        assert!(!should_discard(s));
    }
}

#[test]
fn text_around_a_command_is_kept() {
    for (a, b) in [
        ("one", "two."),
        ("\u{39f}\u{394}\u{39f}\u{3a3}", "\u{e9}t\u{e9} command enter fin."),
        ("d\u{e9}j\u{e0} ", "vu, Command, enter. Encore"),
    ] {
        for spoken in ["command enter", "COMMAND Enter"] {
            assert_eq!(
                process_text(&format!("{} {} {}", a, spoken, b)),
                format!("{} \r\n{}", a, process_text(b))
            );
        }
    }
}

#[test]
fn final_period_changes_nothing() {
    for s in ["", "one", "caf\u{e9}", "command enter", "a command enter b"] {
        for end in [".", ". ", ".\u{3000}\n"] {
            assert_eq!(process_text(&format!("{}{}", s, end)), process_text(s));
        }
    }
}

#[test]
fn edges_do_not_make_noise() {
    for s in ["you", "THANKS", "hello", "\u{39f}\u{3a3}", " ", "."] {
        for (l, r) in [("", "."), (" ,", "\u{3000}!"), ("?;:", "")] {
            assert_eq!(should_discard(&format!("{}{}{}", l, s, r)), should_discard(s));
        }
    }
}

#[test]
fn text_never_grows() {
    for s in ["", ".", "\u{130}", "a command enter b", "command enter", "\u{39f}\u{3a3}."] {
        let out = process_text(s);
        assert!(out.len() <= s.len());
        assert!(out.chars().count() <= s.chars().count());
    }
}
