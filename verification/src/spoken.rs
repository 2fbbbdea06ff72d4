//! What the rules promise of utterances: laws about noise, about commands, and about the text
//! around them.

use vstd::prelude::*;
use vstd::utf8::{encode_scalar, encode_utf8, is_ascii_chars, is_ascii_chars_encode_utf8};

use crate::commands::{
    byte_len, collapsed, command_for, commands_replaced, discard_phrases, discarded, inserted, is_noise, letters_only,
    longest_first, normalized, processed, voice_commands,
};
use crate::letters::{
    ascii_lower, ascii_lowered, is_ascii_letter, is_letter, law_lowercase_holds_ascii_parts,
    law_lowercase_of_ascii, law_lowercase_of_parts, law_lowercase_once_is_enough,
    lemma_lowercase_of_staying, lowercase, sigma_free, stays, CAPITAL_SIGMA, FINAL_SIGMA, SMALL_SIGMA,
};
use crate::normal::{
    is_letterless, is_word, lemma_blank_has_no_words, lemma_collapsed_is_no_longer,
    lemma_first_word, lemma_joined_two, lemma_letters_are_kept, lemma_letters_only_concat,
    lemma_lowercase_letterless, lemma_two_words, lemma_word_is_part, lemma_words_before_blank,
    law_joined, law_words, lemma_words_apart, lemma_words_of_normalized, lemma_words_of_two,
    no_letters, spaces,
};
use crate::pattern::{
    command_enter_at, command_enter_end, command_enter_spans, escaped, escaped_words, final_period,
    gap_end, is_cased_letter, is_meta, is_word_char, lemma_command_enter_end, lemma_final_period,
    lemma_gap_end, phrase_pattern, regex_compiles, regex_matches, phrase_replaced, spliced, spliced_from, stands_at, tail_end,
    without_final_period, word_ends, COMMAND_ENTER, FINAL_PERIOD,
};
use crate::text::{
    blank, is_white_space, joined, law_edges_do_not_matter, trimmed, words_of, Edges,
};

verus! {

// ---------------------------------------------------------------------------
// The phrase
// ---------------------------------------------------------------------------

/// The two words of the phrase, and the phrase itself.
proof fn lemma_phrase()
    ensures
        "command"@.len() == 7,
        "enter"@.len() == 5,
        is_word("command"@),
        is_word("enter"@),
        forall|k: int| 0 <= k < 7 ==> 'a' <= #[trigger] "command"@[k] && "command"@[k] <= 'z',
        forall|k: int| 0 <= k < 5 ==> 'a' <= #[trigger] "enter"@[k] && "enter"@[k] <= 'z',
        "command"@[0] == 'c',
        "enter"@[0] == 'e',
        " "@ == seq![' '],
        "command enter"@ == "command"@ + " "@ + "enter"@,
{
    reveal_strlit("command");
    reveal_strlit("enter");
    reveal_strlit(" ");
    reveal_strlit("command enter");
    assert(" "@ =~= seq![' ']);
    assert("command enter"@ =~= "command"@ + " "@ + "enter"@);
}

/// The words of the phrase.
proof fn lemma_phrase_words()
    ensures
        words_of("command enter"@) == seq!["command"@, "enter"@],
{
    lemma_phrase();
    let none = Seq::<char>::empty();
    lemma_two_words(none, "command"@, " "@, "enter"@, none);
    assert(none + "command"@ + " "@ + "enter"@ + none =~= "command enter"@);
}

/// A text without characters that have a meaning of their own in a pattern stands for itself.
proof fn lemma_escaped_plain(s: Seq<char>)
    requires
        forall|k: int| 0 <= k < s.len() ==> !is_meta(#[trigger] s[k]),
    ensures
        escaped(s) == s,
    decreases s.len(),
{
    if s.len() > 0 {
        let init = s.drop_last();
        assert forall|k: int| 0 <= k < init.len() implies !is_meta(#[trigger] init[k]) by {
            assert(!is_meta(s[k]));
        }
        lemma_escaped_plain(init);
        assert(!is_meta(s[s.len() - 1]));
        assert(init.push(s.last()) =~= s);
    }
}

/// The pattern that finds the phrase is `COMMAND_ENTER`.
proof fn lemma_phrase_pattern()
    ensures
        phrase_pattern("command enter"@) == COMMAND_ENTER@,
{
    lemma_phrase();
    lemma_phrase_words();
    lemma_escaped_plain("command"@);
    lemma_escaped_plain("enter"@);
    let words = words_of("command enter"@);
    assert(escaped_words(words) =~= seq!["command"@, "enter"@]);
    lemma_joined_two("command"@, "enter"@, "[^a-zA-Z]+"@);
    reveal_strlit("command");
    reveal_strlit("enter");
    reveal_strlit("(?i)\\b");
    reveal_strlit("[^a-zA-Z]+");
    reveal_strlit("\\b[,.\\s]*");
    reveal_strlit("(?i)\\bcommand[^a-zA-Z]+enter\\b[,.\\s]*");
    assert(phrase_pattern("command enter"@) =~= COMMAND_ENTER@);
}

/// The phrase is in its normal form.
proof fn lemma_phrase_normalized()
    ensures
        normalized("command enter"@) == "command enter"@,
{
    lemma_phrase();
    reveal_strlit("command enter");
    assert(is_ascii_chars("command enter"@));
    law_lowercase_of_ascii("command enter"@);
    assert(ascii_lowered("command enter"@) =~= "command enter"@);
    assert(letters_only("command enter"@) =~= "command enter"@);
    lemma_phrase_words();
    lemma_joined_two("command"@, "enter"@, " "@);
}

// ---------------------------------------------------------------------------
// A command alone
// ---------------------------------------------------------------------------

/// With one command there is nothing to sort.
proof fn lemma_one_command()
    ensures
        longest_first(voice_commands()) == voice_commands(),
{
    let all = voice_commands();
    assert(all.drop_last() =~= Seq::empty());
    assert(longest_first(all.drop_last()) =~= Seq::empty());
    assert(inserted(Seq::empty(), all.last()) =~= all);
}

/// What an utterance becomes, spelled out for the one command there is.
proof fn lemma_processed(text: Seq<char>)
    requires
        text.len() > 0,
    ensures
        ({
            let cleaned = without_final_period(text);
            processed(text) == if normalized(cleaned) == "command enter"@ {
                "\r\n"@
            } else {
                phrase_replaced(cleaned, "command enter"@, "\r\n"@)
            }
        }),
{
    lemma_one_command();
    lemma_phrase_normalized();
    let all = voice_commands();
    let cleaned = without_final_period(text);
    let spoken = normalized(cleaned);
    assert(all[0] == ("command enter"@, "\r\n"@));
    assert(all.drop_first() =~= Seq::empty());
    reveal_with_fuel(command_for, 2);
    assert(all.drop_last() =~= Seq::empty());
    reveal_with_fuel(commands_replaced, 2);
    assert(commands_replaced(cleaned, Seq::empty()) == cleaned);
}

/// A text with a capital sigma is no command: its normal form holds a small sigma.
proof fn lemma_sigma_is_no_command(text: Seq<char>)
    requires
        normalized(text) == "command enter"@,
    ensures
        sigma_free(text),
{
    law_lowercase_once_is_enough(text);
    let low = lowercase(text);
    if !sigma_free(text) {
        let sigma = if low.contains(SMALL_SIGMA) {
            SMALL_SIGMA
        } else {
            FINAL_SIGMA
        };
        let k = low.index_of(sigma);
        assert(low[k] == sigma);
        lemma_letters_are_kept(text, k);
        reveal_strlit("command enter");
        let j = "command enter"@.index_of(sigma);
        assert("command enter"@[j] == sigma);
    }
}

/// Anything but letters behind a text does not change its normal form.
proof fn lemma_tail_without_letters(s: Seq<char>, tail: Seq<char>)
    requires
        sigma_free(s),
        no_letters(tail),
    ensures
        normalized(s + tail) == normalized(s),
{
    lemma_lowercase_letterless(tail);
    let all = s + tail;
    assert forall|i: int| 0 <= i < all.len() implies #[trigger] all[i] != CAPITAL_SIGMA by {
        assert(all[i] == if i < s.len() { s[i] } else { tail[i - s.len()] });
    }
    law_lowercase_of_parts(s, tail);
    lemma_letters_only_concat(lowercase(s), lowercase(tail));
    lemma_words_before_blank(letters_only(lowercase(s)), spaces(lowercase(tail)));
}

/// What goes with a full stop at the end of a text holds no letter.
proof fn lemma_final_period_tail(text: Seq<char>) -> (tail: Seq<char>)
    ensures
        text == without_final_period(text) + tail,
        no_letters(tail),
{
    let cleaned = without_final_period(text);
    lemma_final_period(text);
    let tail = text.skip(cleaned.len() as int);
    assert(text =~= cleaned + tail);
    assert forall|k: int| 0 <= k < tail.len() implies is_letterless(#[trigger] tail[k]) by {
        assert(tail[k] == text[k + cleaned.len()]);
    }
    tail
}

/// A full stop at the end of an utterance does not decide whether it is the command and nothing
/// else.
pub proof fn law_final_period_is_no_part_of_a_command(text: Seq<char>)
    ensures
        normalized(text) == "command enter"@ <==> normalized(without_final_period(text))
            == "command enter"@,
{
    let cleaned = without_final_period(text);
    let tail = lemma_final_period_tail(text);
    if normalized(text) == "command enter"@ {
        lemma_sigma_is_no_command(text);
        assert forall|i: int| 0 <= i < cleaned.len() implies #[trigger] cleaned[i]
            != CAPITAL_SIGMA by {
            assert(text[i] == cleaned[i]);
        }
        lemma_tail_without_letters(cleaned, tail);
    } else if normalized(cleaned) == "command enter"@ {
        lemma_sigma_is_no_command(cleaned);
        lemma_tail_without_letters(cleaned, tail);
    }
}

/// An utterance that is the command and nothing else becomes a line end.
pub proof fn law_command_alone_becomes_line_end(text: Seq<char>)
    requires
        normalized(text) == "command enter"@,
    ensures
        processed(text) == "\r\n"@,
{
    if text.len() == 0 {
        lemma_collapsed_is_no_longer(letters_only(lowercase(text)));
        law_lowercase_once_is_enough(text);
        lemma_phrase();
    } else {
        law_final_period_is_no_part_of_a_command(text);
        lemma_processed(text);
    }
}

/// The two words with anything but letters before, between and behind them are the phrase.
proof fn lemma_phrase_among_others(
    low: Seq<char>,
    before: Seq<char>,
    between: Seq<char>,
    behind: Seq<char>,
)
    requires
        low == before + "command"@ + between + "enter"@ + behind,
        letters_only(before) == spaces(before),
        letters_only(between) == spaces(between),
        letters_only(behind) == spaces(behind),
        between.len() > 0,
    ensures
        words_of(letters_only(low)) == seq!["command"@, "enter"@],
{
    lemma_phrase();
    assert(letters_only("command"@) =~= "command"@);
    assert(letters_only("enter"@) =~= "enter"@);
    lemma_letters_only_concat(before, "command"@);
    lemma_letters_only_concat(before + "command"@, between);
    lemma_letters_only_concat(before + "command"@ + between, "enter"@);
    lemma_letters_only_concat(before + "command"@ + between + "enter"@, behind);
    lemma_two_words(spaces(before), "command"@, spaces(between), "enter"@, spaces(behind));
}

/// An utterance whose lower-case form is the words `command` and `enter`, with anything but letters
/// before, between and behind them, is the command and nothing else: it becomes a line end.
pub proof fn law_command_in_lower_case(
    text: Seq<char>,
    before: Seq<char>,
    between: Seq<char>,
    behind: Seq<char>,
)
    requires
        ({
            let spoken = before + "command"@ + between + "enter"@ + behind;
            lowercase(text) == spoken || lowercase(without_final_period(text)) == spoken
        }),
        forall|k: int| 0 <= k < before.len() ==> !is_letter(#[trigger] before[k]),
        forall|k: int| 0 <= k < between.len() ==> !is_letter(#[trigger] between[k]),
        forall|k: int| 0 <= k < behind.len() ==> !is_letter(#[trigger] behind[k]),
        between.len() > 0,
    ensures
        normalized(text) == "command enter"@,
        processed(text) == "\r\n"@,
{
    let spoken = before + "command"@ + between + "enter"@ + behind;
    lemma_phrase();
    assert(letters_only(before) =~= spaces(before));
    assert(letters_only(between) =~= spaces(between));
    assert(letters_only(behind) =~= spaces(behind));
    lemma_phrase_among_others(spoken, before, between, behind);
    lemma_joined_two("command"@, "enter"@, " "@);
    law_final_period_is_no_part_of_a_command(text);
    law_command_alone_becomes_line_end(text);
}

/// `s` is `word`, which is in lower case, spoken in any case.
pub open spec fn says(s: Seq<char>, word: Seq<char>) -> bool {
    ascii_lowered(s) == word
}

/// A word of ASCII letters spoken in any case is the word in lower case.
proof fn lemma_says(s: Seq<char>, word: Seq<char>)
    requires
        says(s, word),
        is_ascii_chars(word),
    ensures
        lowercase(s) == word,
        s.len() == word.len(),
        sigma_free(s),
{
    assert(ascii_lowered(s).len() == s.len());
    assert forall|k: int| 0 <= k < s.len() implies '\0' <= #[trigger] s[k] <= '\u{7f}' by {
        assert(word[k] == ascii_lower(s[k]));
        assert(word[k] <= '\u{7f}');
    }
    law_lowercase_of_ascii(s);
}

/// Parts without a capital sigma make a text without one.
proof fn lemma_sigma_free(a: Seq<char>, b: Seq<char>)
    ensures
        sigma_free(a + b) <==> sigma_free(a) && sigma_free(b),
{
    let all = a + b;
    if sigma_free(a) && sigma_free(b) {
        assert forall|i: int| 0 <= i < all.len() implies #[trigger] all[i] != CAPITAL_SIGMA by {
            assert(all[i] == if i < a.len() { a[i] } else { b[i - a.len()] });
        }
    }
    if sigma_free(all) {
        assert forall|i: int| 0 <= i < a.len() implies #[trigger] a[i] != CAPITAL_SIGMA by {
            assert(all[i] == a[i]);
        }
        assert forall|i: int| 0 <= i < b.len() implies #[trigger] b[i] != CAPITAL_SIGMA by {
            assert(all[i + a.len()] == b[i]);
        }
    }
}

/// The lower-case form of a text without a capital sigma in three parts.
proof fn lemma_lowercase_of_three(a: Seq<char>, b: Seq<char>, c: Seq<char>)
    requires
        sigma_free(a),
        sigma_free(b),
        sigma_free(c),
    ensures
        sigma_free(a + b + c),
        lowercase(a + b + c) == lowercase(a) + lowercase(b) + lowercase(c),
{
    lemma_sigma_free(a, b);
    lemma_sigma_free(a + b, c);
    law_lowercase_of_parts(a, b);
    law_lowercase_of_parts(a + b, c);
}

/// The words `command` and `enter` in any case, with anything but letters before, between and
/// behind them, are the command and nothing else: they become a line end.
pub proof fn law_command_in_any_case(
    before: Seq<char>,
    first: Seq<char>,
    between: Seq<char>,
    second: Seq<char>,
    behind: Seq<char>,
)
    requires
        says(first, "command"@),
        says(second, "enter"@),
        no_letters(before),
        no_letters(between),
        no_letters(behind),
        between.len() > 0,
    ensures
        normalized(before + first + between + second + behind) == "command enter"@,
        processed(before + first + between + second + behind) == "\r\n"@,
{
    lemma_phrase();
    let text = before + first + between + second + behind;
    lemma_says(first, "command"@);
    lemma_says(second, "enter"@);
    lemma_lowercase_letterless(before);
    lemma_lowercase_letterless(between);
    lemma_lowercase_letterless(behind);
    lemma_lowercase_of_three(before, first, between);
    lemma_lowercase_of_three(before + first + between, second, behind);
    law_lowercase_once_is_enough(between);
    lemma_phrase_among_others(
        lowercase(text),
        lowercase(before),
        lowercase(between),
        lowercase(behind),
    );
    lemma_joined_two("command"@, "enter"@, " "@);
    law_command_alone_becomes_line_end(text);
}

/// A full stop behind an utterance that ends in none, with any white space behind it, does not
/// change what the utterance becomes.
pub proof fn law_final_period_changes_nothing(text: Seq<char>, white: Seq<char>)
    requires
        final_period(text) < 0,
        blank(white),
    ensures
        processed(text + seq!['.'] + white) == processed(text),
        without_final_period(text + seq!['.'] + white) == text,
    decreases white.len(),
{
    let all = text + seq!['.'] + white;
    if white.len() == 0 {
        assert(all.last() == '.');
        assert(all.take(all.len() - 1) =~= text);
        if text.len() == 0 {
            law_what_an_utterance_becomes(all);
            lemma_normal_form_of_nothing();
            lemma_phrase();
            assert(text =~= Seq::empty());
            assert(command_enter_spans(text, 0) =~= Seq::empty());
            assert(text.skip(0) =~= text);
        } else {
            law_what_an_utterance_becomes(all);
            law_what_an_utterance_becomes(text);
        }
    } else {
        let rest = white.drop_last();
        assert(is_white_space(white[white.len() - 1]));
        assert forall|k: int| 0 <= k < rest.len() implies is_white_space(#[trigger] rest[k]) by {
            assert(rest[k] == white[k]);
        }
        law_final_period_changes_nothing(text, rest);
        let shorter = text + seq!['.'] + rest;
        assert(all.drop_last() =~= shorter);
        assert(all.last() == white.last());
        lemma_final_period(shorter);
        lemma_final_period(all);
        assert(final_period(all) == final_period(shorter));
        assert(final_period(shorter) >= 0) by {
            if final_period(shorter) < 0 {
                assert(without_final_period(shorter).len() == shorter.len());
            }
        }
        assert(all.take(final_period(all)) =~= shorter.take(final_period(all)));
        law_what_an_utterance_becomes(all);
        law_what_an_utterance_becomes(shorter);
    }
}

/// Nothing is its own normal form.
proof fn lemma_normal_form_of_nothing()
    ensures
        normalized(Seq::empty()) == Seq::<char>::empty(),
{
    let none = Seq::<char>::empty();
    assert(letters_only(lowercase(none)) =~= none);
}

// ---------------------------------------------------------------------------
// Commands within a text
// ---------------------------------------------------------------------------

/// What an utterance becomes: a full stop at its end goes; if what is left is the command and
/// nothing else it becomes a line end; else each place where the command is spoken gives way to a
/// line end, and the rest stays.
pub proof fn law_what_an_utterance_becomes(text: Seq<char>)
    requires
        text.len() > 0,
    ensures
        ({
            let cleaned = without_final_period(text);
            processed(text) == if normalized(cleaned) == "command enter"@ {
                "\r\n"@
            } else {
                spliced(cleaned, command_enter_spans(cleaned, 0), "\r\n"@)
            }
        }),
{
    lemma_processed(text);
    lemma_phrase_pattern();
    reveal_strlit("\\.\\s*$");
    reveal_strlit("(?i)\\bcommand[^a-zA-Z]+enter\\b[,.\\s]*");
    assert(COMMAND_ENTER@.len() != FINAL_PERIOD@.len());
}

/// No command begins within another.
proof fn lemma_commands_do_not_overlap(text: Seq<char>, at: int, i: int)
    requires
        command_enter_at(text, at),
        at < i < command_enter_end(text, at),
    ensures
        !command_enter_at(text, i),
{
    lemma_phrase();
    lemma_command_enter_end(text, at);
    lemma_gap_end(text, at + 7);
    let second = gap_end(text, at + 7);
    if command_enter_at(text, i) {
        assert(ascii_lower(text[i + 0]) == "command"@[0]);
        assert(is_ascii_letter(text[i]));
        if i < at + 7 {
            assert(ascii_lower(text[at + (i - 1 - at)]) == "command"@[i - 1 - at]);
            assert(is_ascii_letter(text[i - 1]));
        } else if i < second {
            assert(!is_cased_letter(text[i]));
        } else if i == second {
            assert(ascii_lower(text[second + 0]) == "enter"@[0]);
        } else if i < second + 5 {
            assert(ascii_lower(text[second + (i - 1 - second)]) == "enter"@[i - 1 - second]);
            assert(is_ascii_letter(text[i - 1]));
        } else {
            lemma_tail_has_no_letter(text, second + 5, i);
        }
    }
}

proof fn lemma_tail_has_no_letter(text: Seq<char>, at: int, i: int)
    requires
        0 <= at <= i < tail_end(text, at),
        at <= text.len(),
    ensures
        !is_ascii_letter(text[i]),
    decreases text.len() - at,
{
    if at < i {
        lemma_tail_has_no_letter(text, at + 1, i);
    }
}

/// The spans that give way to a line end are the places where the command is spoken, all of them,
/// from left to right, each up to the end of the commas, full stops and white space behind it.
pub proof fn law_every_command_is_found(text: Seq<char>, from: int)
    requires
        0 <= from,
    ensures
        ({
            let spans = command_enter_spans(text, from);
            &&& forall|k: int|
                0 <= k < spans.len() ==> {
                    &&& from <= (#[trigger] spans[k]).0 < spans[k].1 <= text.len()
                    &&& command_enter_at(text, spans[k].0)
                    &&& spans[k].1 == command_enter_end(text, spans[k].0)
                }
            &&& forall|k: int, l: int|
                0 <= k < l < spans.len() ==> (#[trigger] spans[k]).1 <= (#[trigger] spans[l]).0
            &&& forall|i: int|
                from <= i && #[trigger] command_enter_at(text, i) ==> exists|k: int|
                    0 <= k < spans.len() && (#[trigger] spans[k]).0 == i
        }),
    decreases text.len() - from,
{
    lemma_phrase();
    let spans = command_enter_spans(text, from);
    if from < text.len() {
        if command_enter_at(text, from) {
            let end = command_enter_end(text, from);
            lemma_command_enter_end(text, from);
            law_every_command_is_found(text, end);
            let rest = command_enter_spans(text, end);
            assert(spans =~= seq![(from, end)] + rest);
            assert forall|k: int| 0 <= k < spans.len() implies {
                &&& from <= (#[trigger] spans[k]).0 < spans[k].1 <= text.len()
                &&& command_enter_at(text, spans[k].0)
                &&& spans[k].1 == command_enter_end(text, spans[k].0)
            } by {
                if k > 0 {
                    assert(spans[k] == rest[k - 1]);
                }
            }
            assert forall|k: int, l: int| 0 <= k < l < spans.len() implies (#[trigger] spans[k]).1
                <= (#[trigger] spans[l]).0 by {
                assert(spans[l] == rest[l - 1]);
                if k > 0 {
                    assert(spans[k] == rest[k - 1]);
                }
            }
            assert forall|i: int|
                from <= i && #[trigger] command_enter_at(text, i) implies exists|k: int|
                0 <= k < spans.len() && (#[trigger] spans[k]).0 == i by {
                if i == from {
                    assert(spans[0].0 == i);
                } else if i < end {
                    lemma_commands_do_not_overlap(text, from, i);
                } else {
                    let k = choose|k: int| 0 <= k < rest.len() && (#[trigger] rest[k]).0 == i;
                    assert(spans[k + 1].0 == i);
                }
            }
        } else {
            law_every_command_is_found(text, from + 1);
            assert(spans == command_enter_spans(text, from + 1));
        }
    } else {
        assert(forall|i: int| from <= i ==> !(#[trigger] command_enter_at(text, i)));
    }
}

/// An utterance in which no command is spoken passes unchanged, but for a full stop at its end.
pub proof fn law_text_without_command_passes(text: Seq<char>)
    requires
        text.len() > 0,
        normalized(without_final_period(text)) != "command enter"@,
        forall|i: int| !(#[trigger] command_enter_at(without_final_period(text), i)),
    ensures
        processed(text) == without_final_period(text),
{
    let cleaned = without_final_period(text);
    law_what_an_utterance_becomes(text);
    law_every_command_is_found(cleaned, 0);
    let spans = command_enter_spans(cleaned, 0);
    if spans.len() > 0 {
        assert(command_enter_at(cleaned, spans[0].0));
    }
    assert(cleaned.skip(0) =~= cleaned);
}

/// A command within an utterance gives way to a line end, with the commas, full stops and
/// white space behind it, and the text on both sides stays.
pub proof fn law_command_within_text(
    text: Seq<char>,
    before: Seq<char>,
    spoken: Seq<char>,
    behind: Seq<char>,
)
    requires
        without_final_period(text) == before + spoken + behind,
        normalized(before + spoken + behind) != "command enter"@,
        forall|i: int|
            #[trigger] command_enter_at(before + spoken + behind, i) <==> i == before.len(),
        command_enter_end(before + spoken + behind, before.len() as int) == before.len()
            + spoken.len(),
    ensures
        processed(text) == before + "\r\n"@ + behind,
{
    let cleaned = before + spoken + behind;
    let at = before.len() as int;
    let end = at + spoken.len();
    assert(command_enter_at(cleaned, at));
    lemma_final_period(text);
    lemma_command_enter_end(cleaned, at);
    law_what_an_utterance_becomes(text);
    law_every_command_is_found(cleaned, 0);
    let spans = command_enter_spans(cleaned, 0);
    let k = choose|k: int| 0 <= k < spans.len() && (#[trigger] spans[k]).0 == at;
    assert(spans.len() == 1) by {
        if spans.len() > 1 {
            assert(command_enter_at(cleaned, spans[0].0));
            assert(command_enter_at(cleaned, spans[1].0));
            assert(spans[0].1 <= spans[1].0);
        }
    }
    assert(command_enter_at(cleaned, spans[0].0));
    assert(spans[0] == (at, end));
    reveal_with_fuel(spliced_from, 2);
    assert(spans.drop_first() =~= Seq::empty());
    assert(cleaned.subrange(0, at) =~= before);
    assert(cleaned.skip(end) =~= behind);
}


/// An utterance whose lower-case form does not hold the word `command` passes unchanged, but for a
/// full stop at its end.
pub proof fn law_text_without_the_word_passes(text: Seq<char>)
    requires
        text.len() > 0,
        forall|i: int|
            0 <= i <= lowercase(text).len() - 7 ==> #[trigger] lowercase(text).subrange(i, i + 7)
                != "command"@,
    ensures
        processed(text) == without_final_period(text),
{
    let cleaned = without_final_period(text);
    let low = lowercase(text);
    lemma_phrase();
    let tail = lemma_final_period_tail(text);
    assert forall|i: int| !(#[trigger] command_enter_at(cleaned, i)) by {
        if stands_at(cleaned, i, "command"@) {
            let said = cleaned.subrange(i, i + 7);
            let before = cleaned.take(i);
            let behind = cleaned.skip(i + 7) + tail;
            assert(text =~= before + said + behind);
            lemma_stands_at(cleaned, i, "command"@);
            let at = law_lowercase_holds_ascii_parts(before, said, behind);
            assert(low.subrange(at, at + 7) == "command"@);
        }
    }
    if normalized(cleaned) == "command enter"@ {
        law_final_period_is_no_part_of_a_command(text);
        lemma_words_of_normalized(text);
        lemma_phrase_words();
        let letters = letters_only(low);
        let words = words_of(letters);
        assert(words[0] == "command"@);
        let at = lemma_word_is_part(letters, 0);
        assert(low.subrange(at, at + 7) =~= "command"@) by {
            assert forall|k: int| 0 <= k < 7 implies low[at + k] == "command"@[k] by {
                assert(letters.subrange(at, at + 7)[k] == "command"@[k]);
            }
        }
    }
    law_text_without_command_passes(text);
}

/// A word that stands in a text is a part of it that says the word.
proof fn lemma_stands_at(text: Seq<char>, at: int, word: Seq<char>)
    requires
        stands_at(text, at, word),
        is_ascii_chars(word),
    ensures
        says(text.subrange(at, at + word.len()), word),
        is_ascii_chars(text.subrange(at, at + word.len())),
{
    let said = text.subrange(at, at + word.len());
    assert forall|k: int| 0 <= k < word.len() implies ascii_lower(said[k]) == word[k] && '\0'
        <= #[trigger] said[k] <= '\u{7f}' by {
        assert(said[k] == text[at + k]);
        assert(word[k] <= '\u{7f}');
    }
    assert(ascii_lowered(said) =~= word);
}

// ---------------------------------------------------------------------------
// Commands behind a text
// ---------------------------------------------------------------------------

/// Spans further on by `n` characters.
pub open spec fn moved(spans: Seq<(int, int)>, n: int) -> Seq<(int, int)> {
    Seq::new(spans.len(), |k: int| (spans[k].0 + n, spans[k].1 + n))
}

proof fn lemma_gap_end_moved(x: Seq<char>, y: Seq<char>, at: int)
    requires
        0 <= at,
    ensures
        gap_end(x + y, x.len() + at) == x.len() + gap_end(y, at),
    decreases y.len() - at,
{
    if at < y.len() {
        assert((x + y)[x.len() + at] == y[at]);
        if !is_cased_letter(y[at]) {
            lemma_gap_end_moved(x, y, at + 1);
        }
    }
}

proof fn lemma_tail_end_moved(x: Seq<char>, y: Seq<char>, at: int)
    requires
        0 <= at,
    ensures
        tail_end(x + y, x.len() + at) == x.len() + tail_end(y, at),
    decreases y.len() - at,
{
    if at < y.len() {
        assert((x + y)[x.len() + at] == y[at]);
        if y[at] == ',' || y[at] == '.' || is_white_space(y[at]) {
            lemma_tail_end_moved(x, y, at + 1);
        }
    }
}

proof fn lemma_stands_at_moved(x: Seq<char>, y: Seq<char>, at: int, word: Seq<char>)
    requires
        0 <= at,
    ensures
        stands_at(x + y, x.len() + at, word) == stands_at(y, at, word),
{
    let all = x + y;
    let n = x.len() as int;
    if stands_at(y, at, word) {
        assert forall|k: int| 0 <= k < word.len() implies ascii_lower(#[trigger] all[n + at + k])
            == word[k] by {
            assert(all[n + at + k] == y[at + k]);
        }
    }
    if stands_at(all, n + at, word) {
        assert forall|k: int| 0 <= k < word.len() implies ascii_lower(#[trigger] y[at + k])
            == word[k] by {
            assert(all[n + at + k] == y[at + k]);
        }
    }
}

/// Behind a character that words are not made of, commands are found as in a text of their own.
proof fn lemma_command_moved(x: Seq<char>, y: Seq<char>, at: int)
    requires
        0 <= at,
        x.len() > 0,
        !is_word_char(x.last()),
    ensures
        command_enter_at(x + y, x.len() + at) == command_enter_at(y, at),
        command_enter_end(x + y, x.len() + at) == x.len() + command_enter_end(y, at),
{
    let all = x + y;
    let n = x.len() as int;
    let second = gap_end(y, at + 7);
    lemma_gap_end_moved(x, y, at + 7);
    lemma_gap_end_is_behind(y, at + 7);
    lemma_tail_end_moved(x, y, second + 5);
    lemma_stands_at_moved(x, y, at, "command"@);
    lemma_stands_at_moved(x, y, second, "enter"@);
    assert(all[n - 1] == x.last());
    assert(0 < at <= y.len() ==> all[n + at - 1] == y[at - 1]);
    assert(second + 5 < y.len() ==> all[n + second + 5] == y[second + 5]);
    if stands_at(y, at, "command"@) {
        assert(at <= y.len());
        assert(word_ends(all, n + at - 1) == word_ends(y, at - 1));
    }
    assert(word_ends(all, n + second + 5) == word_ends(y, second + 5));
}

proof fn lemma_gap_end_is_behind(text: Seq<char>, at: int)
    ensures
        at <= gap_end(text, at),
    decreases text.len() - at,
{
    if 0 <= at < text.len() && !is_cased_letter(text[at]) {
        lemma_gap_end_is_behind(text, at + 1);
    }
}

proof fn lemma_spans_moved(x: Seq<char>, y: Seq<char>, at: int)
    requires
        0 <= at,
        x.len() > 0,
        !is_word_char(x.last()),
    ensures
        command_enter_spans(x + y, x.len() + at) == moved(
            command_enter_spans(y, at),
            x.len() as int,
        ),
    decreases y.len() - at,
{
    let n = x.len() as int;
    let there = command_enter_spans(x + y, n + at);
    let here = command_enter_spans(y, at);
    if at < y.len() {
        lemma_command_moved(x, y, at);
        if command_enter_at(y, at) {
            let end = command_enter_end(y, at);
            lemma_command_enter_end(y, at);
            lemma_command_enter_end(x + y, n + at);
            lemma_spans_moved(x, y, end);
            assert(there =~= moved(here, n));
        } else {
            lemma_spans_moved(x, y, at + 1);
        }
    } else {
        assert(there =~= moved(here, n));
    }
}

/// Whether spans follow one another from `at` on within `len` characters.
pub open spec fn in_order(spans: Seq<(int, int)>, at: int, len: int) -> bool {
    &&& at <= len
    &&& forall|k: int|
        0 <= k < spans.len() ==> at <= (#[trigger] spans[k]).0 <= spans[k].1 <= len
    &&& forall|k: int, l: int|
        0 <= k < l < spans.len() ==> (#[trigger] spans[k]).1 <= (#[trigger] spans[l]).0
}

proof fn lemma_in_order_rest(spans: Seq<(int, int)>, at: int, len: int)
    requires
        in_order(spans, at, len),
        spans.len() > 0,
    ensures
        in_order(spans.drop_first(), spans[0].1, len),
{
    let rest = spans.drop_first();
    assert forall|k: int| 0 <= k < rest.len() implies spans[0].1 <= (#[trigger] rest[k]).0
        <= rest[k].1 <= len by {
        assert(rest[k] == spans[k + 1]);
    }
    assert forall|k: int, l: int| 0 <= k < l < rest.len() implies (#[trigger] rest[k]).1 <= (
    #[trigger] rest[l]).0 by {
        assert(rest[k] == spans[k + 1]);
        assert(rest[l] == spans[l + 1]);
    }
}

proof fn lemma_spliced_moved(
    x: Seq<char>,
    y: Seq<char>,
    at: int,
    spans: Seq<(int, int)>,
    replacement: Seq<char>,
)
    requires
        0 <= at,
        in_order(spans, at, y.len() as int),
    ensures
        spliced_from(x + y, x.len() + at, moved(spans, x.len() as int), replacement)
            == spliced_from(y, at, spans, replacement),
    decreases spans.len(),
{
    let n = x.len() as int;
    if spans.len() == 0 {
        assert((x + y).skip(n + at) =~= y.skip(at));
    } else {
        lemma_in_order_rest(spans, at, y.len() as int);
        lemma_spliced_moved(x, y, spans[0].1, spans.drop_first(), replacement);
        assert(moved(spans, n).drop_first() =~= moved(spans.drop_first(), n));
        assert((x + y).subrange(n + at, n + spans[0].0) =~= y.subrange(at, spans[0].0));
    }
}

/// Where no command begins there is nothing to find.
proof fn lemma_spans_from(text: Seq<char>, from: int, to: int)
    requires
        0 <= from <= to <= text.len(),
        forall|i: int| from <= i < to ==> !(#[trigger] command_enter_at(text, i)),
    ensures
        command_enter_spans(text, from) == command_enter_spans(text, to),
    decreases to - from,
{
    if from < to {
        assert(!command_enter_at(text, from));
        lemma_spans_from(text, from + 1, to);
    }
}

/// A full stop at the end of a text is one at the end of what the text ends in.
proof fn lemma_final_period_of_back(x: Seq<char>, y: Seq<char>)
    requires
        y.len() > 0,
        y[0] != '.',
        !is_white_space(y[0]),
    ensures
        without_final_period(x + y) == x + without_final_period(y),
        without_final_period(y).len() > 0,
        without_final_period(y)[0] == y[0],
        final_period(x + y) == if final_period(y) >= 0 {
            x.len() + final_period(y)
        } else {
            -1
        },
    decreases y.len(),
{
    let all = x + y;
    assert(all.last() == y.last());
    lemma_final_period(y);
    if y.last() != '.' && is_white_space(y.last()) {
        assert(all.drop_last() =~= x + y.drop_last());
        lemma_final_period_of_back(x, y.drop_last());
    }
    let p = final_period(y);
    if p >= 0 {
        assert(p != 0);
        assert(all.take(x.len() + p) =~= x + y.take(p));
    }
}

/// The text on both sides of a spoken command is kept. What stands before it is a text with
/// letters that does not hold the word `command`; what stands behind it is processed as a text of
/// its own. It begins with what does not belong to the command, and is not the command itself.
#[verifier::spinoff_prover]
#[verifier::rlimit(60)]
pub proof fn law_text_around_a_command(
    before: Seq<char>,
    first: Seq<char>,
    second: Seq<char>,
    behind: Seq<char>,
)
    requires
        says(first, "command"@),
        says(second, "enter"@),
        forall|i: int|
            0 <= i <= lowercase(before).len() - 7 ==> #[trigger] lowercase(before).subrange(
                i,
                i + 7,
            ) != "command"@,
        normalized(before).len() > 0,
        behind.len() > 0,
        behind[0] != ',',
        behind[0] != '.',
        !is_white_space(behind[0]),
        normalized(behind) != "command enter"@,
    ensures
        processed(before + " "@ + first + " "@ + second + " "@ + behind) == before + " \r\n"@
            + processed(behind),
{
    lemma_phrase();
    let text = before + " "@ + first + " "@ + second + " "@ + behind;
    let x = before + " "@ + first + " "@ + second + " "@;
    let rest = without_final_period(behind);
    let cleaned = x + rest;
    let n = x.len() as int;
    let m = before.len() as int + 1;
    lemma_says(first, "command"@);
    lemma_says(second, "enter"@);
    assert(n == m + 14);
    assert(text =~= x + behind);
    lemma_final_period_of_back(x, behind);
    lemma_more_than_a_command(before, first, second, rest);
    assert(cleaned =~= before + " "@ + first + " "@ + second + " "@ + rest);
    assert forall|i: int| 0 <= i < m implies !(#[trigger] command_enter_at(cleaned, i)) by {
        if stands_at(cleaned, i, "command"@) {
            if i + 7 <= before.len() {
                let said = cleaned.subrange(i, i + 7);
                assert(said =~= before.subrange(i, i + 7));
                assert(before =~= before.take(i) + said + before.skip(i + 7));
                lemma_stands_at(cleaned, i, "command"@);
                let at = law_lowercase_holds_ascii_parts(before.take(i), said, before.skip(i + 7));
                assert(lowercase(before).subrange(at, at + 7) == "command"@);
            } else {
                let k = before.len() - i;
                assert(cleaned[i + k] == ' ');
                assert(ascii_lower(cleaned[i + k]) == "command"@[k]);
            }
        }
    }
    lemma_spans_from(cleaned, 0, m);
    lemma_command_between_spaces(before, first, second, rest);
    assert(x.last() == ' ');
    lemma_spans_moved(x, rest, 0);
    law_every_command_is_found(rest, 0);
    let spans = command_enter_spans(rest, 0);
    assert(in_order(spans, 0, rest.len() as int));
    lemma_spliced_moved(x, rest, 0, spans, "\r\n"@);
    let all = command_enter_spans(cleaned, 0);
    assert(all =~= seq![(m, n)] + moved(spans, n));
    assert(all.drop_first() =~= moved(spans, n));
    law_what_an_utterance_becomes(text);
    law_what_an_utterance_becomes(behind);
    law_final_period_is_no_part_of_a_command(behind);
    reveal_strlit("\r\n");
    reveal_strlit(" \r\n");
    assert(cleaned.subrange(0, m) + "\r\n"@ =~= before + " \r\n"@);
}

/// A command with a text before it and one behind it is more than the command.
proof fn lemma_more_than_a_command(
    before: Seq<char>,
    first: Seq<char>,
    second: Seq<char>,
    behind: Seq<char>,
)
    requires
        says(first, "command"@),
        says(second, "enter"@),
        normalized(before).len() > 0,
    ensures
        normalized(before + " "@ + first + " "@ + second + " "@ + behind) != "command enter"@,
{
    lemma_phrase();
    lemma_says(first, "command"@);
    lemma_says(second, "enter"@);
    let all = before + " "@ + first + " "@ + second + " "@ + behind;
    let c = second + seq![' '] + behind;
    let b = first + seq![' '] + c;
    assert(all =~= before + seq![' '] + b);
    lemma_words_of_two(before, ' ', b);
    lemma_words_of_two(first, ' ', c);
    lemma_words_of_two(second, ' ', behind);
    let none = Seq::<char>::empty();
    assert(letters_only("command"@) =~= "command"@);
    assert(letters_only("enter"@) =~= "enter"@);
    lemma_first_word(none, "command"@, none);
    lemma_first_word(none, "enter"@, none);
    assert(none + "command"@ + none =~= "command"@);
    assert(none + "enter"@ + none =~= "enter"@);
    lemma_words_of_normalized(all);
    lemma_phrase_words();
}

/// The command between two spaces is found, up to what stands behind the second.
proof fn lemma_command_between_spaces(
    before: Seq<char>,
    first: Seq<char>,
    second: Seq<char>,
    behind: Seq<char>,
)
    requires
        says(first, "command"@),
        says(second, "enter"@),
        behind.len() > 0,
        behind[0] != ',',
        behind[0] != '.',
        !is_white_space(behind[0]),
    ensures
        ({
            let text = before + " "@ + first + " "@ + second + " "@ + behind;
            let m = before.len() as int + 1;
            &&& command_enter_at(text, m)
            &&& command_enter_end(text, m) == m + 14
        }),
{
    lemma_phrase();
    lemma_says(first, "command"@);
    lemma_says(second, "enter"@);
    let text = before + " "@ + first + " "@ + second + " "@ + behind;
    let m = before.len() as int + 1;
    assert forall|k: int| 0 <= k < 7 implies ascii_lower(#[trigger] text[m + k])
        == "command"@[k] by {
        assert(text[m + k] == first[k]);
        assert(ascii_lowered(first)[k] == "command"@[k]);
    }
    let second_at = m + 8;
    assert forall|k: int| 0 <= k < 5 implies ascii_lower(#[trigger] text[second_at + k])
        == "enter"@[k] by {
        assert(text[second_at + k] == second[k]);
        assert(ascii_lowered(second)[k] == "enter"@[k]);
    }
    assert(text[m - 1] == ' ');
    assert(text[m + 7] == ' ');
    assert(text[m + 13] == ' ');
    assert(text[m + 14] == behind[0]);
    assert(ascii_lower(text[second_at + 0]) == "enter"@[0]);
    assert(is_cased_letter(text[second_at]));
    reveal_with_fuel(gap_end, 2);
    assert(gap_end(text, m + 7) == second_at);
    reveal_with_fuel(tail_end, 2);
    assert(tail_end(text, m + 13) == m + 14);
}

/// The bytes of two texts one after the other.
proof fn lemma_byte_len_concat(a: Seq<char>, b: Seq<char>)
    ensures
        byte_len(a + b) == byte_len(a) + byte_len(b),
        byte_len(a) >= a.len(),
    decreases a.len(),
{
    if a.len() == 0 {
        assert(a + b =~= b);
    } else {
        lemma_byte_len_concat(a.drop_first(), b);
        assert((a + b).drop_first() =~= a.drop_first() + b);
    }
}

/// What is left with spans replaced is no longer than before, in characters and in bytes, where
/// no replacement takes more bytes than its span has characters.
proof fn lemma_spliced_is_no_longer(
    text: Seq<char>,
    at: int,
    spans: Seq<(int, int)>,
    replacement: Seq<char>,
)
    requires
        0 <= at,
        in_order(spans, at, text.len() as int),
        forall|k: int|
            0 <= k < spans.len() ==> byte_len(replacement) <= (#[trigger] spans[k]).1 - spans[k].0,
    ensures
        spliced_from(text, at, spans, replacement).len() <= text.len() - at,
        byte_len(spliced_from(text, at, spans, replacement)) <= byte_len(text.skip(at)),
    decreases spans.len(),
{
    if spans.len() > 0 {
        lemma_in_order_rest(spans, at, text.len() as int);
        let rest = spans.drop_first();
        assert forall|k: int| 0 <= k < rest.len() implies byte_len(replacement) <= (
        #[trigger] rest[k]).1 - rest[k].0 by {
            assert(rest[k] == spans[k + 1]);
        }
        let (from, to) = spans[0];
        assert(spans[0].0 <= spans[0].1);
        lemma_spliced_is_no_longer(text, to, rest, replacement);
        let front = text.subrange(at, from);
        let span = text.subrange(from, to);
        let left = spliced_from(text, to, rest, replacement);
        assert(text.skip(at) =~= front + span + text.skip(to));
        lemma_byte_len_concat(front + span, text.skip(to));
        lemma_byte_len_concat(front, span);
        lemma_byte_len_concat(span, Seq::empty());
        lemma_byte_len_concat(front + replacement, left);
        lemma_byte_len_concat(front, replacement);
        lemma_byte_len_concat(replacement, Seq::empty());
    }
}

/// An utterance never grows, neither in characters nor in bytes.
pub proof fn law_text_never_grows(text: Seq<char>)
    ensures
        processed(text).len() <= text.len(),
        byte_len(processed(text)) <= byte_len(text),
{
    if text.len() > 0 {
        let cleaned = without_final_period(text);
        let tail = lemma_final_period_tail(text);
        lemma_byte_len_concat(cleaned, tail);
        lemma_phrase();
        reveal_strlit("\r\n");
        assert(byte_len("\r\n"@) == 2) by {
            assert(is_ascii_chars("\r\n"@));
            is_ascii_chars_encode_utf8("\r\n"@);
        }
        law_what_an_utterance_becomes(text);
        if normalized(cleaned) == "command enter"@ {
            law_lowercase_once_is_enough(cleaned);
            lemma_collapsed_is_no_longer(letters_only(lowercase(cleaned)));
        } else {
            law_every_command_is_found(cleaned, 0);
            let spans = command_enter_spans(cleaned, 0);
            assert forall|k: int| 0 <= k < spans.len() implies byte_len("\r\n"@) <= (
            #[trigger] spans[k]).1 - spans[k].0 by {
                lemma_command_enter_end(cleaned, spans[k].0);
            }
            lemma_spliced_is_no_longer(cleaned, 0, spans, "\r\n"@);
            assert(cleaned.skip(0) =~= cleaned);
        }
    }
}

// ---------------------------------------------------------------------------
// Noise
// ---------------------------------------------------------------------------

/// What is left of a text once its edges are cut off is a middle of it, with edge characters on
/// both sides.
#[verifier::spinoff_prover]
#[verifier::rlimit(60)]
proof fn lemma_trimmed_is_middle(s: Seq<char>, edges: Edges) -> (ends: (int, int))
    ensures
        0 <= ends.0 <= ends.1 <= s.len(),
        trimmed(s, edges) == s.subrange(ends.0, ends.1),
        forall|k: int| 0 <= k < ends.0 ==> edges.has(#[trigger] s[k]),
        forall|k: int| ends.1 <= k < s.len() ==> edges.has(#[trigger] s[k]),
    decreases s.len(),
{
    if s.len() == 0 {
        assert(s.subrange(0, 0) =~= s);
        (0, 0)
    } else if edges.has(s.first()) {
        let rest = s.drop_first();
        let (i, j) = lemma_trimmed_is_middle(rest, edges);
        assert(rest.subrange(i, j) =~= s.subrange(i + 1, j + 1));
        assert forall|k: int| 0 <= k < i + 1 implies edges.has(#[trigger] s[k]) by {
            if k > 0 {
                assert(edges.has(rest[k - 1]));
            }
        }
        assert forall|k: int| j + 1 <= k < s.len() implies edges.has(#[trigger] s[k]) by {
            assert(edges.has(rest[k - 1]));
        }
        (i + 1, j + 1)
    } else if edges.has(s.last()) {
        let rest = s.drop_last();
        let (i, j) = lemma_trimmed_is_middle(rest, edges);
        assert(rest.subrange(i, j) =~= s.subrange(i, j));
        assert forall|k: int| 0 <= k < i implies edges.has(#[trigger] s[k]) by {
            assert(edges.has(rest[k]));
        }
        assert forall|k: int| j <= k < s.len() implies edges.has(#[trigger] s[k]) by {
            if k < s.len() - 1 {
                assert(edges.has(rest[k]));
            }
        }
        (i, j)
    } else {
        assert(s.subrange(0, s.len() as int) =~= s);
        (0, s.len() as int)
    }
}

/// A text in lower case that is a phrase to discard from `i` to `j`, with white space and marks
/// around it.
pub open spec fn is_noise_between(low: Seq<char>, i: int, j: int) -> bool {
    &&& 0 <= i <= j <= low.len()
    &&& discard_phrases().contains(low.subrange(i, j))
    &&& forall|k: int|
        0 <= k < low.len() && (k < i || j <= k) ==> Edges::WhiteAndMarks.has(#[trigger] low[k])
}

/// The phrases to discard are small letters with spaces between them.
#[verifier::spinoff_prover]
#[verifier::rlimit(60)]
proof fn lemma_discard_phrase(phrase: Seq<char>)
    requires
        discard_phrases().contains(phrase),
    ensures
        is_ascii_chars(phrase),
        phrase.len() > 0,
        letters_only(phrase) == phrase,
        !phrase.contains('c'),
        !phrase.contains(SMALL_SIGMA),
        !phrase.contains(FINAL_SIGMA),
        trimmed(phrase, Edges::WhiteAndMarks) == phrase,
        phrase == "thank you"@ || phrase == "thanks"@ || phrase == "you"@,
        phrase != "command enter"@,
{
    reveal_strlit("thank you");
    reveal_strlit("thanks");
    reveal_strlit("you");
    reveal_strlit("command enter");
    let listed = discard_phrases();
    let j = choose|j: int| 0 <= j < listed.len() && listed[j] == phrase;
    assert(phrase == "thank you"@ || phrase == "thanks"@ || phrase == "you"@);
    assert(letters_only(phrase) =~= phrase);
    assert(trimmed(phrase, Edges::WhiteAndMarks) == phrase);
}

/// The phrase of two words, with spaces before it.
#[verifier::spinoff_prover]
#[verifier::rlimit(60)]
proof fn lemma_thank_you(before: Seq<char>)
    requires
        blank(before),
    ensures
        collapsed(before + "thank you"@) == "thank you"@,
{
    reveal_strlit("thank you");
    reveal_strlit(" ");
    let phrase = "thank you"@;
    let none = Seq::<char>::empty();
    let (first, second) = (phrase.take(5), phrase.skip(6));
    assert(is_word(first));
    assert(is_word(second));
    assert(" "@ =~= seq![' ']);
    assert(phrase =~= first + " "@ + second);
    assert(before + phrase =~= before + first + " "@ + second + none);
    lemma_two_words(before, first, " "@, second, none);
    lemma_joined_two(first, second, " "@);
}

/// A phrase to discard with spaces around it has the phrase as its words.
proof fn lemma_discard_phrase_words(before: Seq<char>, phrase: Seq<char>, behind: Seq<char>)
    requires
        discard_phrases().contains(phrase),
        blank(before),
        blank(behind),
    ensures
        collapsed(before + phrase + behind) == phrase,
{
    lemma_discard_phrase(phrase);
    lemma_words_before_blank(before + phrase, behind);
    if phrase == "thank you"@ {
        lemma_thank_you(before);
    } else {
        assert(is_word(phrase)) by {
            reveal_strlit("thanks");
            reveal_strlit("you");
        }
        let none = Seq::<char>::empty();
        lemma_first_word(before, phrase, none);
        assert(before + phrase + none =~= before + phrase);
        lemma_blank_has_no_words(none);
        assert(seq![phrase] + Seq::<Seq<char>>::empty() =~= seq![phrase]);
    }
}

/// An utterance that is not empty is discarded if and only if its lower-case form is a phrase to
/// discard with white space and marks around it. The phrase is then its normal form, and not that
/// of the command.
#[verifier::spinoff_prover]
#[verifier::rlimit(60)]
pub proof fn law_noise(text: Seq<char>)
    requires
        text.len() > 0,
    ensures
        discarded(text) <==> exists|i: int, j: int|
            #[trigger] is_noise_between(lowercase(text), i, j),
        discarded(text) ==> discard_phrases().contains(normalized(text)) && normalized(text)
            != "command enter"@,
{
    let low = lowercase(text);
    let edges = Edges::WhiteAndMarks;
    if discarded(text) {
        let (i, j) = lemma_trimmed_is_middle(low, edges);
        assert(is_noise_between(low, i, j));
        let phrase = low.subrange(i, j);
        lemma_discard_phrase(phrase);
        let (before, behind) = (low.take(i), low.skip(j));
        assert(low =~= before + phrase + behind);
        lemma_letters_only_concat(before, phrase);
        lemma_letters_only_concat(before + phrase, behind);
        assert(letters_only(before) =~= spaces(before)) by {
            assert forall|k: int| 0 <= k < before.len() implies !is_letter(before[k]) by {
                assert(edges.has(low[k]));
            }
        }
        assert(letters_only(behind) =~= spaces(behind)) by {
            assert forall|k: int| 0 <= k < behind.len() implies !is_letter(behind[k]) by {
                assert(edges.has(low[k + j]));
            }
        }
        lemma_discard_phrase_words(spaces(before), phrase, spaces(behind));
    }
    if exists|i: int, j: int| #[trigger] is_noise_between(low, i, j) {
        let (i, j) = choose|i: int, j: int| #[trigger] is_noise_between(low, i, j);
        let (before, phrase, behind) = (low.take(i), low.subrange(i, j), low.skip(j));
        assert(low =~= before + phrase + behind);
        assert forall|k: int| 0 <= k < before.len() implies edges.has(#[trigger] before[k]) by {
            assert(before[k] == low[k]);
        }
        assert forall|k: int| 0 <= k < behind.len() implies edges.has(#[trigger] behind[k]) by {
            assert(behind[k] == low[k + j]);
        }
        law_edges_do_not_matter(before, phrase, behind, edges);
        lemma_discard_phrase(phrase);
    }
}

/// A character that is no edge character stands in the phrase.
proof fn lemma_noise_holds(low: Seq<char>, k: int)
    requires
        is_noise(low),
        0 <= k < low.len(),
        !Edges::WhiteAndMarks.has(low[k]),
    ensures
        trimmed(low, Edges::WhiteAndMarks).contains(low[k]),
{
    let (i, j) = lemma_trimmed_is_middle(low, Edges::WhiteAndMarks);
    assert(i <= k < j);
    assert(low.subrange(i, j)[k - i] == low[k]);
}

/// A text with a capital sigma is no noise.
proof fn lemma_sigma_is_no_noise(text: Seq<char>)
    requires
        !sigma_free(text),
    ensures
        !is_noise(lowercase(text)),
{
    law_lowercase_once_is_enough(text);
    let low = lowercase(text);
    let sigma = if low.contains(SMALL_SIGMA) {
        SMALL_SIGMA
    } else {
        FINAL_SIGMA
    };
    let k = low.index_of(sigma);
    if is_noise(low) {
        assert(low[k] == sigma);
        lemma_noise_holds(low, k);
        lemma_discard_phrase(trimmed(low, Edges::WhiteAndMarks));
    }
}

/// White space and marks stay as they are in lower case.
proof fn lemma_lowercase_of_edges(s: Seq<char>)
    requires
        forall|i: int| 0 <= i < s.len() ==> Edges::WhiteAndMarks.has(#[trigger] s[i]),
    ensures
        lowercase(s) == s,
        sigma_free(s),
{
    assert forall|k: int| 0 <= k < s.len() implies stays(#[trigger] s[k]) by {
        assert(Edges::WhiteAndMarks.has(s[k]));
    }
    lemma_lowercase_of_staying(s);
    assert forall|k: int| 0 <= k < s.len() implies #[trigger] s[k] != CAPITAL_SIGMA by {
        assert(Edges::WhiteAndMarks.has(s[k]));
    }
}

/// White space and marks around an utterance make no difference to whether it is discarded.
pub proof fn law_edges_do_not_make_noise(before: Seq<char>, text: Seq<char>, behind: Seq<char>)
    requires
        text.len() > 0,
        forall|i: int|
            0 <= i < before.len() ==> Edges::WhiteAndMarks.has(#[trigger] before[i]),
        forall|i: int|
            0 <= i < behind.len() ==> Edges::WhiteAndMarks.has(#[trigger] behind[i]),
    ensures
        discarded(before + text + behind) == discarded(text),
{
    let all = before + text + behind;
    lemma_lowercase_of_edges(before);
    lemma_lowercase_of_edges(behind);
    if sigma_free(text) {
        lemma_lowercase_of_three(before, text, behind);
        law_edges_do_not_matter(before, lowercase(text), behind, Edges::WhiteAndMarks);
    } else {
        lemma_sigma_free(before, text);
        lemma_sigma_free(before + text, behind);
        lemma_sigma_is_no_noise(text);
        lemma_sigma_is_no_noise(all);
    }
}

/// A phrase to discard is discarded in any case, with any white space and marks around it.
pub proof fn law_noise_in_any_case(
    before: Seq<char>,
    spoken: Seq<char>,
    behind: Seq<char>,
    phrase: Seq<char>,
)
    requires
        discard_phrases().contains(phrase),
        says(spoken, phrase),
        forall|i: int|
            0 <= i < before.len() ==> Edges::WhiteAndMarks.has(#[trigger] before[i]),
        forall|i: int|
            0 <= i < behind.len() ==> Edges::WhiteAndMarks.has(#[trigger] behind[i]),
    ensures
        discarded(before + spoken + behind),
{
    lemma_discard_phrase(phrase);
    lemma_says(spoken, phrase);
    law_edges_do_not_make_noise(before, spoken, behind);
}

/// The command is not noise, and neither is any utterance that holds the word `command` in any
/// case.
pub proof fn law_command_is_not_noise(before: Seq<char>, first: Seq<char>, behind: Seq<char>)
    requires
        says(first, "command"@),
    ensures
        !discarded(before + first + behind),
{
    lemma_phrase();
    let text = before + first + behind;
    lemma_says(first, "command"@);
    let low = lowercase(text);
    assert(is_ascii_chars(first)) by {
        assert forall|k: int| 0 <= k < first.len() implies '\0' <= #[trigger] first[k]
            <= '\u{7f}' by {
            assert(ascii_lowered(first)[k] == "command"@[k]);
        }
    }
    let at = law_lowercase_holds_ascii_parts(before, first, behind);
    assert(low.subrange(at, at + 7)[0] == 'c');
    if discarded(text) {
        lemma_noise_holds(low, at);
        lemma_discard_phrase(trimmed(low, Edges::WhiteAndMarks));
    }
}

/// An utterance that is the command and nothing else is not discarded.
pub proof fn law_spoken_command_is_kept(text: Seq<char>)
    requires
        normalized(text) == "command enter"@,
    ensures
        !discarded(text),
{
    if text.len() == 0 {
        assert(text =~= Seq::empty());
        lemma_normal_form_of_nothing();
        lemma_phrase();
    } else {
        law_noise(text);
    }
}

// ---------------------------------------------------------------------------
// Patterns and replacements
// ---------------------------------------------------------------------------

/// The pattern of a phrase of one word is the word, escaped, as a whole word in any case with the
/// commas, full stops and white space behind it.
pub proof fn law_pattern_of_one_word(word: Seq<char>)
    requires
        word.len() > 0,
        forall|k: int| 0 <= k < word.len() ==> !is_white_space(#[trigger] word[k]),
    ensures
        phrase_pattern(word) == "(?i)\\b"@ + escaped(word) + "\\b[,.\\s]*"@,
{
    law_words(Seq::empty(), ' ', Seq::empty(), word);
    assert(escaped_words(seq![word]) =~= seq![escaped(word)]);
    law_joined(Seq::empty(), Seq::empty(), escaped(word), "[^a-zA-Z]+"@);
}

/// The pattern of two phrases one behind the other is that of the first without its end and that of
/// the second without its beginning, with anything but ASCII letters between them.
pub proof fn law_pattern_of_two(a: Seq<char>, white: char, b: Seq<char>)
    requires
        is_white_space(white),
        words_of(a).len() > 0,
        words_of(b).len() > 0,
    ensures
        ({
            let head = "(?i)\\b"@.len() as int;
            let tail = "\\b[,.\\s]*"@.len() as int;
            let (x, y) = (phrase_pattern(a), phrase_pattern(b));
            phrase_pattern(a + seq![white] + b) == x.take(x.len() - tail) + "[^a-zA-Z]+"@ + y.skip(
                head,
            )
        }),
{
    let (xs, ys) = (words_of(a), words_of(b));
    let gap = "[^a-zA-Z]+"@;
    let (head, tail) = ("(?i)\\b"@, "\\b[,.\\s]*"@);
    lemma_words_apart(a, white, b);
    assert(escaped_words(xs + ys) =~= escaped_words(xs) + escaped_words(ys));
    law_joined(escaped_words(xs), escaped_words(ys), Seq::empty(), gap);
    let (x, y) = (joined(escaped_words(xs), gap), joined(escaped_words(ys), gap));
    assert((head + x + tail).take((head.len() + x.len()) as int) =~= head + x);
    assert((head + y + tail).skip(head.len() as int) =~= y + tail);
    assert(head + (x + gap + y) + tail =~= head + x + gap + (y + tail));
}

/// Replacing spans: without any the text stays; of the first span all that stands before it stays,
/// the replacement takes its place, and the rest of the text is dealt with on its own.
pub proof fn law_spans_are_replaced(
    text: Seq<char>,
    from: int,
    to: int,
    rest: Seq<(int, int)>,
    replacement: Seq<char>,
)
    requires
        0 <= from <= to <= text.len(),
        in_order(rest, 0, text.len() - to),
    ensures
        spliced(text, Seq::empty(), replacement) == text,
        spliced(text, seq![(from, to)] + moved(rest, to), replacement) == text.take(from)
            + replacement + spliced(text.skip(to), rest, replacement),
{
    let (x, y) = (text.take(to), text.skip(to));
    let all = seq![(from, to)] + moved(rest, to);
    assert(text =~= x + y);
    assert(text.skip(0) =~= text);
    lemma_spliced_moved(x, y, 0, rest, replacement);
    assert(all.drop_first() =~= moved(rest, to));
    assert(text.subrange(0, from) =~= text.take(from));
}

/// A phrase gives way to its replacement wherever its pattern is found, and one whose pattern is not
/// accepted leaves the text as it is.
pub proof fn law_phrase_gives_way(text: Seq<char>, phrase: Seq<char>, replacement: Seq<char>)
    requires
        phrase_pattern(phrase) != FINAL_PERIOD@,
        phrase_pattern(phrase) != COMMAND_ENTER@,
    ensures
        regex_compiles(phrase_pattern(phrase)) ==> phrase_replaced(text, phrase, replacement)
            == spliced(text, regex_matches(phrase_pattern(phrase), text), replacement),
        !regex_compiles(phrase_pattern(phrase)) ==> phrase_replaced(text, phrase, replacement)
            == text,
{
}

// ---------------------------------------------------------------------------
// Commands anywhere
// ---------------------------------------------------------------------------

/// Nothing becomes nothing.
pub proof fn law_nothing_becomes_nothing()
    ensures
        processed(Seq::empty()) == Seq::<char>::empty(),
        discarded(Seq::empty()),
{
}

/// A text in lower case is noise if and only if it is a phrase to discard with white space and marks
/// around it.
pub proof fn law_noise_in_lower_case(low: Seq<char>)
    ensures
        is_noise(low) <==> exists|i: int, j: int| #[trigger] is_noise_between(low, i, j),
{
    let edges = Edges::WhiteAndMarks;
    if is_noise(low) {
        let (i, j) = lemma_trimmed_is_middle(low, edges);
        assert(is_noise_between(low, i, j));
    }
    if exists|i: int, j: int| #[trigger] is_noise_between(low, i, j) {
        let (i, j) = choose|i: int, j: int| #[trigger] is_noise_between(low, i, j);
        let (before, phrase, behind) = (low.take(i), low.subrange(i, j), low.skip(j));
        assert(low =~= before + phrase + behind);
        assert forall|k: int| 0 <= k < before.len() implies edges.has(#[trigger] before[k]) by {
            assert(before[k] == low[k]);
        }
        assert forall|k: int| 0 <= k < behind.len() implies edges.has(#[trigger] behind[k]) by {
            assert(behind[k] == low[k + j]);
        }
        law_edges_do_not_matter(before, phrase, behind, edges);
        lemma_discard_phrase(phrase);
    }
}

proof fn lemma_gap_end_at(text: Seq<char>, at: int, end: int)
    requires
        0 <= at <= end < text.len(),
        forall|k: int| at <= k < end ==> !is_cased_letter(#[trigger] text[k]),
        is_cased_letter(text[end]),
    ensures
        gap_end(text, at) == end,
    decreases end - at,
{
    if at < end {
        assert(!is_cased_letter(text[at]));
        lemma_gap_end_at(text, at + 1, end);
    }
}

/// A comma, a full stop or white space.
pub open spec fn is_tail_char(c: char) -> bool {
    c == ',' || c == '.' || is_white_space(c)
}

proof fn lemma_tail_end_at(text: Seq<char>, at: int, end: int)
    requires
        0 <= at <= end <= text.len(),
        forall|k: int| at <= k < end ==> is_tail_char(#[trigger] text[k]),
        end < text.len() ==> !is_tail_char(text[end]),
    ensures
        tail_end(text, at) == end,
    decreases end - at,
{
    if at < end {
        assert(is_tail_char(text[at]));
        lemma_tail_end_at(text, at + 1, end);
    }
}

/// Behind a text, commands are found as in a text of their own, where no word goes on from one to
/// the other.
proof fn lemma_spans_behind(x: Seq<char>, y: Seq<char>)
    requires
        x.len() > 0,
        y.len() == 0 || !is_word_char(x.last()) || !is_word_char(y[0]),
    ensures
        command_enter_spans(x + y, x.len() as int) == moved(
            command_enter_spans(y, 0),
            x.len() as int,
        ),
{
    let n = x.len() as int;
    if y.len() == 0 {
        assert(command_enter_spans(x + y, n) =~= moved(command_enter_spans(y, 0), n));
    } else if !is_word_char(x.last()) {
        lemma_spans_moved(x, y, 0);
    } else {
        lemma_phrase();
        let all = x + y;
        let (start, rest) = (seq![y[0]], y.drop_first());
        assert(all[n] == y[0]);
        assert(!is_ascii_letter(y[0]));
        assert(!command_enter_at(all, n)) by {
            if stands_at(all, n, "command"@) {
                assert(ascii_lower(all[n + 0]) == "command"@[0]);
            }
        }
        assert(!command_enter_at(y, 0)) by {
            if stands_at(y, 0, "command"@) {
                assert(ascii_lower(y[0int + 0int]) == "command"@[0]);
            }
        }
        assert(all =~= x.push(y[0]) + rest);
        assert(y =~= start + rest);
        lemma_spans_moved(x.push(y[0]), rest, 0);
        lemma_spans_moved(start, rest, 0);
        let spans = command_enter_spans(rest, 0);
        assert(command_enter_spans(all, n) == moved(spans, n + 1));
        assert(command_enter_spans(y, 0) == moved(spans, 1));
        assert(moved(moved(spans, 1), n) =~= moved(spans, n + 1));
    }
}

/// The first command of a text, up to what stands behind it.
#[verifier::spinoff_prover]
#[verifier::rlimit(60)]
proof fn lemma_first_command(
    before: Seq<char>,
    first: Seq<char>,
    gap: Seq<char>,
    second: Seq<char>,
    tail: Seq<char>,
    behind: Seq<char>,
)
    requires
        says(first, "command"@),
        says(second, "enter"@),
        gap.len() > 0,
        forall|k: int| 0 <= k < gap.len() ==> !is_cased_letter(#[trigger] gap[k]),
        forall|k: int| 0 <= k < tail.len() ==> is_tail_char(#[trigger] tail[k]),
        behind.len() > 0 ==> !is_tail_char(behind[0]),
        (tail + behind).len() > 0 ==> !is_word_char((tail + behind)[0]),
        tail.len() > 0 ==> !is_word_char(tail.last()),
        before.len() > 0 ==> !is_word_char(before.last()),
        forall|i: int|
            0 <= i <= lowercase(before).len() - 7 ==> #[trigger] lowercase(before).subrange(
                i,
                i + 7,
            ) != "command"@,
    ensures
        ({
            let x = before + first + gap + second + tail;
            spliced(x + behind, command_enter_spans(x + behind, 0), "\r\n"@) == before + "\r\n"@
                + spliced(behind, command_enter_spans(behind, 0), "\r\n"@)
        }),
{
    lemma_phrase();
    lemma_says(first, "command"@);
    lemma_says(second, "enter"@);
    let x = before + first + gap + second + tail;
    let text = x + behind;
    let m = before.len() as int;
    let s = m + 7 + gap.len();
    let n = x.len() as int;
    assert(n == s + 5 + tail.len());
    assert forall|k: int| 0 <= k < 7 implies ascii_lower(#[trigger] text[m + k])
        == "command"@[k] by {
        assert(text[m + k] == first[k]);
        assert(ascii_lowered(first)[k] == "command"@[k]);
    }
    assert forall|k: int| 0 <= k < 5 implies ascii_lower(#[trigger] text[s + k])
        == "enter"@[k] by {
        assert(text[s + k] == second[k]);
        assert(ascii_lowered(second)[k] == "enter"@[k]);
    }
    assert forall|k: int| m + 7 <= k < s implies !is_cased_letter(#[trigger] text[k]) by {
        assert(text[k] == gap[k - m - 7]);
    }
    assert(ascii_lower(text[s + 0]) == "enter"@[0]);
    lemma_gap_end_at(text, m + 7, s);
    assert forall|k: int| s + 5 <= k < n implies is_tail_char(#[trigger] text[k]) by {
        assert(text[k] == tail[k - s - 5]);
    }
    assert(n < text.len() ==> text[n] == behind[0]);
    lemma_tail_end_at(text, s + 5, n);
    assert(m > 0 ==> text[m - 1] == before.last());
    assert(s + 5 < text.len() ==> text[s + 5] == (tail + behind)[0]);
    assert(command_enter_at(text, m));
    assert(command_enter_end(text, m) == n);
    assert forall|i: int| 0 <= i < m implies !(#[trigger] command_enter_at(text, i)) by {
        if stands_at(text, i, "command"@) {
            if i + 7 <= m {
                let said = text.subrange(i, i + 7);
                assert(said =~= before.subrange(i, i + 7));
                assert(before =~= before.take(i) + said + before.skip(i + 7));
                lemma_stands_at(text, i, "command"@);
                let at = law_lowercase_holds_ascii_parts(before.take(i), said, before.skip(i + 7));
                assert(lowercase(before).subrange(at, at + 7) == "command"@);
            } else {
                let k = m - 1 - i;
                assert(ascii_lower(text[i + k]) == "command"@[k]);
                assert(is_ascii_letter(text[m - 1]));
            }
        }
    }
    lemma_spans_from(text, 0, m);
    assert(behind.len() == 0 || !is_word_char(x.last()) || !is_word_char(behind[0])) by {
        if tail.len() > 0 {
            assert(x.last() == tail.last());
        } else if behind.len() > 0 {
            assert((tail + behind)[0] == behind[0]);
        }
    }
    lemma_spans_behind(x, behind);
    let spans = command_enter_spans(behind, 0);
    law_every_command_is_found(behind, 0);
    assert(in_order(spans, 0, behind.len() as int));
    let all = command_enter_spans(text, 0);
    assert(all == seq![(m, n)] + moved(spans, n));
    assert(text.skip(n) =~= behind);
    assert(text.take(m) =~= before);
    law_spans_are_replaced(text, m, n, spans, "\r\n"@);
}

/// A command at the end of a text, with a full stop there or without.
#[verifier::spinoff_prover]
#[verifier::rlimit(60)]
proof fn lemma_command_at_the_end(
    before: Seq<char>,
    first: Seq<char>,
    gap: Seq<char>,
    second: Seq<char>,
    tail: Seq<char>,
)
    requires
        says(first, "command"@),
        says(second, "enter"@),
        gap.len() > 0,
        forall|k: int| 0 <= k < gap.len() ==> !is_cased_letter(#[trigger] gap[k]),
        forall|k: int|
            0 <= k < tail.len() ==> is_tail_char(#[trigger] tail[k]) && !is_word_char(tail[k]),
        before.len() > 0 ==> !is_word_char(before.last()),
        forall|i: int|
            0 <= i <= lowercase(before).len() - 7 ==> #[trigger] lowercase(before).subrange(
                i,
                i + 7,
            ) != "command"@,
    ensures
        ({
            let cleaned = without_final_period(before + first + gap + second + tail);
            spliced(cleaned, command_enter_spans(cleaned, 0), "\r\n"@) == before + "\r\n"@
        }),
{
    lemma_phrase();
    lemma_says(second, "enter"@);
    let text = before + first + gap + second + tail;
    let last = second[4];
    assert(ascii_lowered(second)[4] == "enter"@[4]);
    let x = before + first + gap + second.drop_last();
    let y = seq![last] + tail;
    assert(text =~= x + y);
    lemma_final_period_of_back(x, y);
    lemma_final_period(y);
    let left = without_final_period(y).drop_first();
    assert(without_final_period(y) =~= seq![last] + left);
    assert(left =~= tail.take(left.len() as int));
    assert forall|k: int| 0 <= k < left.len() implies is_tail_char(#[trigger] left[k])
        && !is_word_char(left[k]) by {
        assert(left[k] == tail[k]);
    }
    let none = Seq::<char>::empty();
    assert((left + none) =~= left);
    assert(without_final_period(text) =~= before + first + gap + second + left + none);
    lemma_first_command(before, first, gap, second, left, none);
    assert(command_enter_spans(none, 0) =~= Seq::empty());
    assert(none.skip(0) =~= none);
    assert(before + "\r\n"@ + none =~= before + "\r\n"@);
}

/// A command anywhere in an utterance gives way to a line end, and all the text around it is kept:
/// what stands before it as it is, and what stands behind it as it would become alone. The two
/// words may be in any case, with anything but ASCII letters between them, and the commas, full
/// stops and white space behind them go with them. No word goes on from the text before into the
/// command or from the command into the text behind, the text before does not hold the word
/// `command`, and neither the whole nor the text behind is the command and nothing else.
#[verifier::spinoff_prover]
#[verifier::rlimit(60)]
pub proof fn law_text_around_any_command(
    before: Seq<char>,
    first: Seq<char>,
    gap: Seq<char>,
    second: Seq<char>,
    tail: Seq<char>,
    behind: Seq<char>,
)
    requires
        says(first, "command"@),
        says(second, "enter"@),
        gap.len() > 0,
        forall|k: int|
            0 <= k < gap.len() ==> !is_ascii_letter(#[trigger] gap[k]) && gap[k] != '\u{212a}'
                && gap[k] != '\u{17f}',
        forall|k: int| 0 <= k < tail.len() ==> is_tail_char(#[trigger] tail[k]),
        behind.len() > 0 ==> !is_tail_char(behind[0]),
        forall|k: int| 0 <= k < tail.len() ==> !is_word_char(#[trigger] tail[k]),
        tail.len() == 0 && behind.len() > 0 ==> !is_word_char(behind[0]),
        before.len() > 0 ==> !is_word_char(before.last()),
        forall|i: int|
            0 <= i <= lowercase(before).len() - 7 ==> #[trigger] lowercase(before).subrange(
                i,
                i + 7,
            ) != "command"@,
        normalized(before + first + gap + second + tail + behind) != "command enter"@,
        normalized(behind) != "command enter"@,
    ensures
        processed(before + first + gap + second + tail + behind) == before + "\r\n"@ + processed(
            behind,
        ),
{
    lemma_phrase();
    lemma_says(first, "command"@);
    lemma_says(second, "enter"@);
    let text = before + first + gap + second + tail + behind;
    law_final_period_is_no_part_of_a_command(text);
    law_what_an_utterance_becomes(text);
    if behind.len() > 0 {
        let x = before + first + gap + second + tail;
        let rest = without_final_period(behind);
        lemma_final_period_of_back(x, behind);
        assert((tail + rest)[0] == if tail.len() > 0 { tail[0] } else { rest[0] });
        lemma_first_command(before, first, gap, second, tail, rest);
        law_what_an_utterance_becomes(behind);
        law_final_period_is_no_part_of_a_command(behind);
    } else {
        assert(behind =~= Seq::empty());
        assert(text =~= before + first + gap + second + tail);
        lemma_command_at_the_end(before, first, gap, second, tail);
    }
}

/// Where a command is spoken: the word `command` in any case, with no word going on into it; behind
/// it at least one character that is no ASCII letter, nor one of the two that count as such in any
/// case; behind these the word `enter` in any case, with no word going on from it.
pub proof fn law_where_a_command_is_spoken(text: Seq<char>, at: int)
    ensures
        command_enter_at(text, at) <==> exists|second: int|
            #[trigger] spoken_from_to(text, at, second),
{
    lemma_phrase();
    if command_enter_at(text, at) {
        let second = gap_end(text, at + 7);
        lemma_gap_end(text, at + 7);
        lemma_stands_at(text, at, "command"@);
        lemma_stands_at(text, second, "enter"@);
        assert(spoken_from_to(text, at, second));
    }
    if exists|second: int| #[trigger] spoken_from_to(text, at, second) {
        let second = choose|second: int| #[trigger] spoken_from_to(text, at, second);
        let (x, y) = (text.subrange(at, at + 7), text.subrange(second, second + 5));
        assert forall|k: int| 0 <= k < 7 implies ascii_lower(#[trigger] text[at + k])
            == "command"@[k] by {
            assert(ascii_lowered(x)[k] == "command"@[k]);
            assert(x[k] == text[at + k]);
        }
        assert forall|k: int| 0 <= k < 5 implies ascii_lower(#[trigger] text[second + k])
            == "enter"@[k] by {
            assert(ascii_lowered(y)[k] == "enter"@[k]);
            assert(y[k] == text[second + k]);
        }
        assert(ascii_lower(text[second + 0]) == "enter"@[0]);
        assert(is_cased_letter(text[second]));
        lemma_gap_end_at(text, at + 7, second);
    }
}

/// Whether `command` is spoken from `at` on and `enter` from `second` on, as whole words with a gap
/// between them.
pub open spec fn spoken_from_to(text: Seq<char>, at: int, second: int) -> bool {
    &&& 0 <= at
    &&& at + 7 < second
    &&& second + 5 <= text.len()
    &&& ascii_lowered(text.subrange(at, at + 7)) == "command"@
    &&& ascii_lowered(text.subrange(second, second + 5)) == "enter"@
    &&& at > 0 ==> !is_word_char(text[at - 1])
    &&& second + 5 < text.len() ==> !is_word_char(text[second + 5])
    &&& forall|k: int|
        at + 7 <= k < second ==> !is_ascii_letter(#[trigger] text[k]) && text[k] != '\u{212a}'
            && text[k] != '\u{17f}'
}

/// A command reaches over the commas, full stops and white space behind it, and no further.
pub proof fn law_where_a_command_ends(text: Seq<char>, at: int, second: int, end: int)
    requires
        spoken_from_to(text, at, second),
        second + 5 <= end <= text.len(),
        forall|k: int|
            second + 5 <= k < end ==> #[trigger] text[k] == ',' || text[k] == '.' || is_white_space(
                text[k],
            ),
        end < text.len() ==> text[end] != ',' && text[end] != '.' && !is_white_space(text[end]),
    ensures
        command_enter_end(text, at) == end,
{
    lemma_phrase();
    let y = text.subrange(second, second + 5);
    assert(ascii_lowered(y)[0] == "enter"@[0]);
    assert(y[0] == text[second]);
    assert(is_cased_letter(text[second]));
    lemma_gap_end_at(text, at + 7, second);
    assert forall|k: int| second + 5 <= k < end implies is_tail_char(#[trigger] text[k]) by {
        assert(text[k] == ',' || text[k] == '.' || is_white_space(text[k]));
    }
    lemma_tail_end_at(text, second + 5, end);
}

/// Among the ASCII characters, words are made of letters, digits and the underscore.
pub proof fn law_ascii_words(c: char)
    requires
        c <= '\x7f',
    ensures
        is_word_char(c) <==> ('a' <= c <= 'z' || 'A' <= c <= 'Z' || '0' <= c <= '9' || c == '_'),
{
}

/// The length of a phrase is that of its bytes: one for an ASCII character and more for others, and
/// the bytes of two texts add up.
pub proof fn law_length_in_bytes(a: Seq<char>, b: Seq<char>, c: char)
    ensures
        byte_len(Seq::empty()) == 0,
        byte_len(seq![c]) == if c <= '\x7f' {
            1nat
        } else if c <= '\u{7ff}' {
            2
        } else if c <= '\u{ffff}' {
            3
        } else {
            4
        },
        byte_len(a + b) == byte_len(a) + byte_len(b),
{
    lemma_byte_len_concat(a, b);
    let one = seq![c];
    assert(one.drop_first() =~= Seq::empty());
    assert(encode_utf8(one) == encode_scalar(c as u32) + encode_utf8(one.drop_first()));
}

} // verus!
