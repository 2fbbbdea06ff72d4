//! Search patterns: what the calls into the `regex` crate give back.

use vstd::prelude::*;

use crate::letters::{ascii_lower, is_ascii_letter};
use crate::text::{blank, is_white_space, join, joined, split_words, views, words_of};

verus! {

// ---------------------------------------------------------------------------
// Escaping
// ---------------------------------------------------------------------------

/// The characters with a meaning of their own in a pattern.
pub open spec fn is_meta(c: char) -> bool {
    ||| c == '\\' || c == '.' || c == '+' || c == '*' || c == '?' || c == '(' || c == ')'
    ||| c == '|' || c == '[' || c == ']' || c == '{' || c == '}' || c == '^' || c == '$'
    ||| c == '#' || c == '&' || c == '-' || c == '~'
}

/// `s` with a backslash in front of each character that has a meaning of its own in a pattern.
pub open spec fn escaped(s: Seq<char>) -> Seq<char>
    decreases s.len(),
{
    if s.len() == 0 {
        s
    } else if is_meta(s.last()) {
        escaped(s.drop_last()).push('\\').push(s.last())
    } else {
        escaped(s.drop_last()).push(s.last())
    }
}

/// `regex::escape` puts a backslash in front of each character that has a meaning of its own in a
/// pattern, and leaves the others as they are.
pub assume_specification[ regex::escape ](pattern: &str) -> (out: String)
    ensures
        out@ == escaped(pattern@),
;

// ---------------------------------------------------------------------------
// Matches and replacements
// ---------------------------------------------------------------------------

/// Whether `Regex::new` accepts a pattern.
pub uninterp spec fn regex_compiles(pattern: Seq<char>) -> bool;

/// Where `Regex::find_iter` finds a pattern in a text: the start and the end, counted in
/// characters, of each match, from left to right.
pub uninterp spec fn regex_matches(pattern: Seq<char>, text: Seq<char>) -> Seq<(int, int)>;

/// What is left of `text` from `at` on once each of `spans` has been replaced.
pub open spec fn spliced_from(
    text: Seq<char>,
    at: int,
    spans: Seq<(int, int)>,
    replacement: Seq<char>,
) -> Seq<char>
    decreases spans.len(),
{
    if spans.len() == 0 {
        text.skip(at)
    } else {
        text.subrange(at, spans[0].0) + replacement + spliced_from(
            text,
            spans[0].1,
            spans.drop_first(),
            replacement,
        )
    }
}

/// `text` with each of `spans` replaced.
pub open spec fn spliced(
    text: Seq<char>,
    spans: Seq<(int, int)>,
    replacement: Seq<char>,
) -> Seq<char> {
    spliced_from(text, 0, spans, replacement)
}

/// A full stop, and nothing but white space between it and the end.
pub const FINAL_PERIOD: &'static str = "\\.\\s*$";

/// Where the full stop stands that only white space follows, or -1 if there is none.
pub open spec fn final_period(text: Seq<char>) -> int
    decreases text.len(),
{
    if text.len() == 0 {
        -1
    } else if text.last() == '.' {
        text.len() - 1
    } else if is_white_space(text.last()) {
        final_period(text.drop_last())
    } else {
        -1
    }
}

/// The one match of `FINAL_PERIOD`, if there is one.
pub open spec fn final_period_spans(text: Seq<char>) -> Seq<(int, int)> {
    if final_period(text) >= 0 {
        seq![(final_period(text), text.len() as int)]
    } else {
        Seq::empty()
    }
}

/// The words `command` and `enter` in any case, with characters between them that are no letters
/// `a` to `z` in any case, and the commas, full stops and white space behind them.
pub const COMMAND_ENTER: &'static str = "(?i)\\bcommand[^a-zA-Z]+enter\\b[,.\\s]*";

/// The ASCII characters that words are made of: letters, digits and the underscore.
pub open spec fn is_ascii_word_char(c: char) -> bool {
    is_ascii_letter(c) || ('0' <= c && c <= '9') || c == '_'
}

/// A place where a word begins or ends.
pub const WORD_BOUNDARY: &'static str = "\\b";

/// Whether words are made of characters like `c`. Beyond ASCII it is for the `regex` crate to say:
/// a text of one such character is a word, with a beginning and an end, and a text of another
/// character has neither.
pub open spec fn is_word_char(c: char) -> bool {
    if c <= '\x7f' {
        is_ascii_word_char(c)
    } else {
        regex_matches(WORD_BOUNDARY@, seq![c]).len() > 0
    }
}

/// Whether a word of ASCII letters ends where `beside` is the place of the character next to it:
/// there is none, or words are not made of it.
pub open spec fn word_ends(text: Seq<char>, beside: int) -> bool {
    beside < 0 || beside >= text.len() || !is_word_char(text[beside])
}

/// The letters `a` to `z` in any case. Two characters beyond ASCII count as a `k` and an `s`: the
/// Kelvin sign and the long s.
pub open spec fn is_cased_letter(c: char) -> bool {
    is_ascii_letter(c) || c == '\u{212a}' || c == '\u{17f}'
}

/// Whether `word`, in lower case, stands in `text` at `at`, in any case.
pub open spec fn stands_at(text: Seq<char>, at: int, word: Seq<char>) -> bool {
    &&& 0 <= at
    &&& at + word.len() <= text.len()
    &&& forall|k: int| 0 <= k < word.len() ==> ascii_lower(#[trigger] text[at + k]) == word[k]
}

/// The end of the stretch of characters from `at` on that are no letters `a` to `z` in any case.
pub open spec fn gap_end(text: Seq<char>, at: int) -> int
    decreases text.len() - at,
{
    if 0 <= at < text.len() && !is_cased_letter(text[at]) {
        gap_end(text, at + 1)
    } else {
        at
    }
}

/// The end of the stretch of commas, full stops and white space from `at` on.
pub open spec fn tail_end(text: Seq<char>, at: int) -> int
    decreases text.len() - at,
{
    if 0 <= at < text.len() && (text[at] == ',' || text[at] == '.' || is_white_space(text[at])) {
        tail_end(text, at + 1)
    } else {
        at
    }
}

/// Whether the words `command` and `enter` stand at `at`, as whole words with a gap between them.
pub open spec fn command_enter_at(text: Seq<char>, at: int) -> bool {
    let second = gap_end(text, at + 7);
    &&& stands_at(text, at, "command"@)
    &&& word_ends(text, at - 1)
    &&& second > at + 7
    &&& stands_at(text, second, "enter"@)
    &&& word_ends(text, second + 5)
}

/// Where the match of `COMMAND_ENTER` ends that begins at `at`.
pub open spec fn command_enter_end(text: Seq<char>, at: int) -> int {
    tail_end(text, gap_end(text, at + 7) + 5)
}

/// A gap ends at its first letter or at the end of the text.
pub proof fn lemma_gap_end(text: Seq<char>, at: int)
    requires
        0 <= at <= text.len(),
    ensures
        at <= gap_end(text, at) <= text.len(),
        forall|k: int| at <= k < gap_end(text, at) ==> !is_cased_letter(#[trigger] text[k]),
        gap_end(text, at) == text.len() || is_cased_letter(text[gap_end(text, at)]),
    decreases text.len() - at,
{
    if at < text.len() && !is_cased_letter(text[at]) {
        lemma_gap_end(text, at + 1);
    }
}

/// A tail ends within the text.
pub proof fn lemma_tail_end(text: Seq<char>, at: int)
    requires
        0 <= at <= text.len(),
    ensures
        at <= tail_end(text, at) <= text.len(),
    decreases text.len() - at,
{
    if at < text.len() && (text[at] == ',' || text[at] == '.' || is_white_space(text[at])) {
        lemma_tail_end(text, at + 1);
    }
}

/// A match of `COMMAND_ENTER` is longer than the two words and ends within the text.
pub proof fn lemma_command_enter_end(text: Seq<char>, at: int)
    requires
        command_enter_at(text, at),
    ensures
        at + 12 < command_enter_end(text, at) <= text.len(),
{
    reveal_strlit("command");
    reveal_strlit("enter");
    lemma_tail_end(text, gap_end(text, at + 7) + 5);
}

/// The matches of `COMMAND_ENTER`, from `at` on.
pub open spec fn command_enter_spans(text: Seq<char>, at: int) -> Seq<(int, int)>
    decreases text.len() - at,
{
    if at < 0 || at >= text.len() {
        Seq::empty()
    } else if command_enter_at(text, at) {
        proof {
            lemma_command_enter_end(text, at);
        }
        seq![(at, command_enter_end(text, at))] + command_enter_spans(
            text,
            command_enter_end(text, at),
        )
    } else {
        command_enter_spans(text, at + 1)
    }
}

/// The patterns whose meaning is spelled out here.
pub open spec fn is_known(pattern: Seq<char>) -> bool {
    pattern == FINAL_PERIOD@ || pattern == COMMAND_ENTER@
}

/// Where a pattern is found in a text, given what the `regex` crate finds: spelled out for
/// `FINAL_PERIOD` and for `COMMAND_ENTER`.
pub open spec fn spelled_out(
    pattern: Seq<char>,
    text: Seq<char>,
    found: Seq<(int, int)>,
) -> Seq<(int, int)> {
    if pattern == FINAL_PERIOD@ {
        final_period_spans(text)
    } else if pattern == COMMAND_ENTER@ {
        command_enter_spans(text, 0)
    } else {
        found
    }
}

/// The first of `spans`, if there is one.
pub open spec fn first_only(spans: Seq<(int, int)>) -> Seq<(int, int)> {
    if spans.len() == 0 {
        spans
    } else {
        spans.take(1)
    }
}

/// Whether a pattern can be searched for.
pub open spec fn is_pattern(pattern: Seq<char>) -> bool {
    is_known(pattern) || regex_compiles(pattern)
}

/// Where a pattern is found in a text.
pub open spec fn matches_of(pattern: Seq<char>, text: Seq<char>) -> Seq<(int, int)> {
    spelled_out(pattern, text, regex_matches(pattern, text))
}

/// `Regex::new` and, where it accepts the pattern, `Regex::replace`: the first match gives way to
/// the replacement and the rest of the text stays. `FINAL_PERIOD` and `COMMAND_ENTER` are
/// accepted. `None` stands for a pattern that is not. A `$` in a replacement would refer to a
/// group of the pattern, so there may be none.
#[verifier::external_body]
fn regex_replace(pattern: &str, text: &str, replacement: &str) -> (out: Option<String>)
    requires
        !replacement@.contains('$'),
    ensures
        out is Some <==> is_known(pattern@) || regex_compiles(pattern@),
        out matches Some(s) ==> s@ == spliced(
            text@,
            first_only(spelled_out(pattern@, text@, regex_matches(pattern@, text@))),
            replacement@,
        ),
{
    let re = regex::Regex::new(pattern).ok()?;
    Some(re.replace(text, replacement).into_owned())
}

/// `Regex::new` and, where it accepts the pattern, `Regex::replace_all`: each match gives way to
/// the replacement and the rest of the text stays. `FINAL_PERIOD` and `COMMAND_ENTER` are
/// accepted. `None` stands for a pattern that is not. A `$` in a replacement would refer to a
/// group of the pattern, so there may be none.
#[verifier::external_body]
fn regex_replace_all(pattern: &str, text: &str, replacement: &str) -> (out: Option<String>)
    requires
        !replacement@.contains('$'),
    ensures
        out is Some <==> is_known(pattern@) || regex_compiles(pattern@),
        out matches Some(s) ==> s@ == spliced(
            text@,
            spelled_out(pattern@, text@, regex_matches(pattern@, text@)),
            replacement@,
        ),
{
    let re = regex::Regex::new(pattern).ok()?;
    Some(re.replace_all(text, replacement).into_owned())
}

// ---------------------------------------------------------------------------
// The two uses
// ---------------------------------------------------------------------------

/// `text` without a full stop at its end, and without the white space behind that full stop.
pub open spec fn without_final_period(text: Seq<char>) -> Seq<char> {
    if final_period(text) >= 0 {
        text.take(final_period(text))
    } else {
        text
    }
}

/// What `final_period` finds is a full stop with nothing but white space behind it.
pub proof fn lemma_final_period(text: Seq<char>)
    ensures
        -1 <= final_period(text) < text.len(),
        final_period(text) >= 0 ==> text[final_period(text)] == '.' && forall|k: int|
            final_period(text) < k < text.len() ==> is_white_space(#[trigger] text[k]),
    decreases text.len(),
{
    if text.len() > 0 && text.last() != '.' && is_white_space(text.last()) {
        lemma_final_period(text.drop_last());
        let p = final_period(text);
        if p >= 0 {
            assert forall|k: int| p < k < text.len() implies is_white_space(#[trigger] text[k]) by {
                if k < text.len() - 1 {
                    assert(is_white_space(text.drop_last()[k]));
                }
            }
        }
    }
}

/// Cuts off the full stop at the end of `text`, with the white space behind it.
pub fn strip_final_period(text: &str) -> (out: String)
    ensures
        out@ == without_final_period(text@),
{
    proof {
        reveal_strlit("");
        lemma_final_period(text@);
    }
    match regex_replace(FINAL_PERIOD, text, "") {
        Some(out) => {
            proof {
                reveal_with_fuel(spliced_from, 2);
                let spans = final_period_spans(text@);
                if spans.len() > 0 {
                    assert(spans.take(1) =~= spans);
                    assert(text@.skip(text@.len() as int) =~= Seq::<char>::empty());
                    assert(out@ =~= text@.take(final_period(text@)));
                } else {
                    assert(out@ =~= text@);
                }
            }
            out
        },
        None => text.to_owned(),
    }
}

/// The pattern that finds a spoken phrase: its words, in any case, with characters between them
/// that are no ASCII letters, and the commas, full stops and white space behind them.
pub open spec fn phrase_pattern(phrase: Seq<char>) -> Seq<char> {
    "(?i)\\b"@ + joined(escaped_words(words_of(phrase)), "[^a-zA-Z]+"@) + "\\b[,.\\s]*"@
}

/// The words, each escaped.
pub open spec fn escaped_words(words: Seq<Seq<char>>) -> Seq<Seq<char>> {
    Seq::new(words.len(), |i: int| escaped(words[i]))
}

/// Builds the pattern that finds a spoken phrase.
pub fn build_phrase_pattern(phrase: &str) -> (out: String)
    ensures
        out@ == phrase_pattern(phrase@),
{
    let words = split_words(phrase);
    let mut parts: Vec<String> = Vec::new();
    for i in 0..words.len()
        invariant
            parts.len() == i,
            forall|k: int| 0 <= k < i ==> (#[trigger] parts@[k])@ == escaped(words@[k]@),
    {
        parts.push(regex::escape(words[i].as_str()));
    }
    proof {
        assert(views(parts@) =~= escaped_words(views(words@)));
    }
    let body = join(&parts, "[^a-zA-Z]+");
    let mut out = "(?i)\\b".to_owned();
    out.append(body.as_str());
    out.append("\\b[,.\\s]*");
    out
}

/// `text` with each place where `phrase` is spoken replaced. A phrase that gives no pattern leaves
/// the text as it is.
pub open spec fn phrase_replaced(
    text: Seq<char>,
    phrase: Seq<char>,
    replacement: Seq<char>,
) -> Seq<char> {
    let pattern = phrase_pattern(phrase);
    if is_pattern(pattern) {
        spliced(text, matches_of(pattern, text), replacement)
    } else {
        text
    }
}

/// Replaces each place in `text` where `phrase` is spoken.
pub fn replace_phrase(text: String, phrase: &str, replacement: &str) -> (out: String)
    requires
        !replacement@.contains('$'),
    ensures
        out@ == phrase_replaced(text@, phrase@, replacement@),
{
    let pattern = build_phrase_pattern(phrase);
    match regex_replace_all(pattern.as_str(), text.as_str(), replacement) {
        Some(out) => out,
        None => text,
    }
}

/// The last full stop of a text goes, with the white space behind it, and all that stands before it
/// stays, other full stops too.
pub proof fn law_final_period_goes(text: Seq<char>, white: Seq<char>)
    requires
        blank(white),
    ensures
        without_final_period(text + seq!['.'] + white) == text,
        final_period(text + seq!['.'] + white) == text.len(),
    decreases white.len(),
{
    let all = text + seq!['.'] + white;
    if white.len() == 0 {
        assert(all.last() == '.');
    } else {
        let rest = white.drop_last();
        assert(is_white_space(white[white.len() - 1]));
        assert(all.last() == white[white.len() - 1]);
        assert forall|k: int| 0 <= k < rest.len() implies is_white_space(#[trigger] rest[k]) by {
            assert(rest[k] == white[k]);
        }
        law_final_period_goes(text, rest);
        assert(all.drop_last() =~= text + seq!['.'] + rest);
    }
    assert(all.take(text.len() as int) =~= text);
}

/// A text that ends in anything but a full stop, white space aside, stays as it is, and so does one
/// of white space only.
pub proof fn law_other_ends_stay(front: Seq<char>, last: char, white: Seq<char>)
    requires
        blank(white),
        last != '.',
        !is_white_space(last),
    ensures
        without_final_period(front + seq![last] + white) == front + seq![last] + white,
        without_final_period(white) == white,
    decreases white.len(),
{
    let all = front + seq![last] + white;
    if white.len() == 0 {
        assert(all.last() == last);
    } else {
        let rest = white.drop_last();
        assert(is_white_space(white[white.len() - 1]));
        assert(all.last() == white[white.len() - 1]);
        assert forall|k: int| 0 <= k < rest.len() implies is_white_space(#[trigger] rest[k]) by {
            assert(rest[k] == white[k]);
        }
        law_other_ends_stay(front, last, rest);
        lemma_final_period(front + seq![last] + rest);
        lemma_final_period(rest);
        assert(all.drop_last() =~= front + seq![last] + rest);
        assert(final_period(front + seq![last] + rest) < 0) by {
            if final_period(front + seq![last] + rest) >= 0 {
                assert(without_final_period(front + seq![last] + rest).len() < (front + seq![last]
                    + rest).len());
            }
        }
        assert(final_period(rest) < 0) by {
            if final_period(rest) >= 0 {
                assert(without_final_period(rest).len() < rest.len());
            }
        }
    }
}

} // verus!
