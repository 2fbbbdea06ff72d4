//! What is done with an utterance: noise is discarded, spoken commands are carried out.

use vstd::prelude::*;
use vstd::utf8::encode_utf8;

use crate::letters::{is_letter, lowercase};
use crate::pattern::{phrase_replaced, replace_phrase, strip_final_period, without_final_period};
use crate::text::{chars_of, join, joined, split_words, trim, trimmed, words_of, Edges};

verus! {

// ---------------------------------------------------------------------------
// Discarding
// ---------------------------------------------------------------------------

/// The phrases to discard.
pub open spec fn discard_phrases() -> Seq<Seq<char>> {
    seq!["thank you"@, "thanks"@, "you"@]
}

/// Phrases to discard (common misheard sounds).
pub fn get_discard_phrases() -> (out: Vec<&'static str>)
    ensures
        out@.len() == 3,
        Seq::new(3, |i: int| out@[i]@) == discard_phrases(),
{
    let out: Vec<&'static str> = vec!["thank you", "thanks", "you"];
    assert(Seq::new(3, |i: int| out@[i]@) =~= discard_phrases());
    out
}

/// Whether a text is one of the phrases to discard, but for white space and marks around it.
pub open spec fn is_noise(lowered: Seq<char>) -> bool {
    discard_phrases().contains(trimmed(lowered, Edges::WhiteAndMarks))
}

/// Whether a text in lower case is one of the phrases to discard, but for white space and marks
/// around it.
pub fn is_discard_phrase(lowered: &str) -> (yes: bool)
    ensures
        yes == is_noise(lowered@),
{
    let normalized = trim(lowered, &Edges::WhiteAndMarks);
    let phrases = get_discard_phrases();
    let ghost listed = Seq::new(3, |i: int| phrases@[i]@);
    for i in 0..phrases.len()
        invariant
            phrases@.len() == 3,
            listed == discard_phrases(),
            listed == Seq::new(3, |i: int| phrases@[i]@),
            normalized@ == trimmed(lowered@, Edges::WhiteAndMarks),
            forall|k: int| 0 <= k < i ==> normalized@ != #[trigger] listed[k],
    {
        assert(listed[i as int] == phrases@[i as int]@);
        if normalized == phrases[i].to_owned() {
            assert(discard_phrases().contains(listed[i as int]));
            return true;
        }
    }
    false
}

/// Whether an utterance is dropped: it is empty, or it is one of the phrases to discard, in any
/// case and with any white space and marks around it.
pub open spec fn discarded(text: Seq<char>) -> bool {
    text.len() == 0 || is_noise(lowercase(text))
}

/// Check if text should be discarded.
pub fn should_discard(text: &str) -> (yes: bool)
    ensures
        yes == discarded(text@),
{
    if text.is_empty() {
        return true;
    }
    let lowered = text.to_lowercase();
    is_discard_phrase(lowered.as_str())
}

// ---------------------------------------------------------------------------
// Normalizing
// ---------------------------------------------------------------------------

/// `s` with a space in place of each character that is no letter.
pub open spec fn letters_only(s: Seq<char>) -> Seq<char> {
    Seq::new(
        s.len(),
        |i: int|
            if is_letter(s[i]) {
                s[i]
            } else {
                ' '
            },
    )
}

/// The words of `s` with one space between neighbours.
pub open spec fn collapsed(s: Seq<char>) -> Seq<char> {
    joined(words_of(s), " "@)
}

/// The form in which utterances and commands are compared: lower-case words, one space apart.
pub open spec fn normalized(text: Seq<char>) -> Seq<char> {
    collapsed(letters_only(lowercase(text)))
}

/// Puts a space in place of each character that is no letter.
pub fn keep_letters(s: &str) -> (out: String)
    ensures
        out@ == letters_only(s@),
{
    let chars = chars_of(s);
    let mut out = String::new();
    for i in 0..chars.len()
        invariant
            chars@ == s@,
            out@ == letters_only(s@).take(i as int),
    {
        let c = chars[i];
        if c.is_alphabetic() {
            out.push(c);
        } else {
            out.push(' ');
        }
        assert(out@ =~= letters_only(s@).take(i + 1));
    }
    assert(letters_only(s@).take(s@.len() as int) =~= letters_only(s@));
    out
}

/// Leaves one space between the words of `s`, and no white space around them.
pub fn collapse_whitespace(s: &str) -> (out: String)
    ensures
        out@ == collapsed(s@),
{
    let words = split_words(s);
    join(&words, " ")
}

/// Normalize text for command matching: lowercase and replace non-alpha with space.
pub fn normalize_for_matching(text: &str) -> (out: String)
    ensures
        out@ == normalized(text@),
{
    let lowered = text.to_lowercase();
    let letters = keep_letters(lowered.as_str());
    collapse_whitespace(letters.as_str())
}

// ---------------------------------------------------------------------------
// The list of commands
// ---------------------------------------------------------------------------

/// The phrase and the replacement of each command of a list.
pub open spec fn command_views(commands: Seq<(&'static str, &'static str)>) -> Seq<
    (Seq<char>, Seq<char>),
> {
    Seq::new(commands.len(), |i: int| (commands[i].0@, commands[i].1@))
}

/// The voice commands.
pub open spec fn voice_commands() -> Seq<(Seq<char>, Seq<char>)> {
    seq![("command enter"@, "\r\n"@)]
}

/// Voice commands: phrase -> replacement.
pub fn get_commands() -> (out: Vec<(&'static str, &'static str)>)
    ensures
        command_views(out@) == voice_commands(),
{
    let out: Vec<(&'static str, &'static str)> = vec![("command enter", "\r\n")];
    assert(command_views(out@) =~= voice_commands());
    out
}

/// How many bytes a text takes.
pub open spec fn byte_len(s: Seq<char>) -> nat {
    encode_utf8(s).len()
}

/// `sorted` with `command` put behind the phrases that are at least as long as its own.
pub open spec fn inserted(
    sorted: Seq<(Seq<char>, Seq<char>)>,
    command: (Seq<char>, Seq<char>),
) -> Seq<(Seq<char>, Seq<char>)>
    decreases sorted.len(),
{
    if sorted.len() == 0 || byte_len(sorted.last().0) >= byte_len(command.0) {
        sorted.push(command)
    } else {
        inserted(sorted.drop_last(), command).push(sorted.last())
    }
}

/// The commands by the length of their phrases, the longest first; those of one length stay in
/// the order in which they are listed.
pub open spec fn longest_first(commands: Seq<(Seq<char>, Seq<char>)>) -> Seq<
    (Seq<char>, Seq<char>),
>
    decreases commands.len(),
{
    if commands.len() == 0 {
        commands
    } else {
        inserted(longest_first(commands.drop_last()), commands.last())
    }
}

/// Where a command goes is settled by the lengths on both sides of the place.
proof fn lemma_inserted_at(
    sorted: Seq<(Seq<char>, Seq<char>)>,
    command: (Seq<char>, Seq<char>),
    at: int,
)
    requires
        0 <= at <= sorted.len(),
        at == 0 || byte_len(sorted[at - 1].0) >= byte_len(command.0),
        forall|k: int| at <= k < sorted.len() ==> byte_len((#[trigger] sorted[k]).0) < byte_len(
            command.0,
        ),
    ensures
        inserted(sorted, command) == sorted.insert(at, command),
    decreases sorted.len(),
{
    if at == sorted.len() {
        assert(sorted.insert(at, command) =~= sorted.push(command));
    } else {
        let shorter = sorted.drop_last();
        assert(byte_len(sorted[sorted.len() - 1].0) < byte_len(command.0));
        assert forall|k: int| at <= k < shorter.len() implies byte_len((#[trigger] shorter[k]).0)
            < byte_len(command.0) by {
            assert(shorter[k] == sorted[k]);
        }
        lemma_inserted_at(shorter, command, at);
        assert(shorter.insert(at, command).push(sorted.last()) =~= sorted.insert(at, command));
    }
}

/// Sorts commands by the length of their phrases, longest first.
pub fn sort_longest_first(commands: &Vec<(&'static str, &'static str)>) -> (out: Vec<
    (&'static str, &'static str),
>)
    ensures
        command_views(out@) == longest_first(command_views(commands@)),
{
    let mut out: Vec<(&'static str, &'static str)> = Vec::new();
    let ghost all = command_views(commands@);
    assert(command_views(out@) =~= longest_first(all.take(0)));
    for i in 0..commands.len()
        invariant
            all == command_views(commands@),
            command_views(out@) == longest_first(all.take(i as int)),
    {
        let command = commands[i];
        let len: usize = command.0.as_bytes().len();
        let mut at: usize = out.len();
        while at > 0 && out[at - 1].0.as_bytes().len() < len
            invariant
                at <= out.len(),
                len == byte_len(command.0@),
                forall|k: int| at <= k < out.len() ==> byte_len((#[trigger] out@[k]).0@) < len,
            ensures
                at <= out.len(),
                at == 0 || byte_len(out@[at - 1].0@) >= len,
            decreases at,
        {
            at = at - 1;
        }
        let ghost before = command_views(out@);
        proof {
            assert forall|k: int| at <= k < before.len() implies byte_len((#[trigger] before[k]).0)
                < len by {
                assert(byte_len(out@[k].0@) < len);
            }
            lemma_inserted_at(before, (command.0@, command.1@), at as int);
        }
        out.insert(at, command);
        proof {
            assert(command_views(out@) =~= before.insert(at as int, (command.0@, command.1@)));
            assert(all.take(i + 1).drop_last() =~= all.take(i as int));
        }
    }
    assert(all.take(commands@.len() as int) =~= all);
    out
}

// ---------------------------------------------------------------------------
// Carrying out commands
// ---------------------------------------------------------------------------

/// The replacement of the first command whose phrase, normalized, is `spoken`.
pub open spec fn command_for(spoken: Seq<char>, commands: Seq<(Seq<char>, Seq<char>)>) -> Option<
    Seq<char>,
>
    decreases commands.len(),
{
    if commands.len() == 0 {
        None
    } else if spoken == normalized(commands[0].0) {
        Some(commands[0].1)
    } else {
        command_for(spoken, commands.drop_first())
    }
}

/// The first command whose phrase, normalized, is `spoken`: its replacement.
pub fn find_command(spoken: &String, commands: &Vec<(&'static str, &'static str)>) -> (out: Option<
    &'static str,
>)
    ensures
        out is Some <==> command_for(spoken@, command_views(commands@)) is Some,
        out matches Some(r) ==> r@ == command_for(spoken@, command_views(commands@))->Some_0,
{
    let ghost all = command_views(commands@);
    assert(all.skip(0) =~= all);
    for i in 0..commands.len()
        invariant
            all == command_views(commands@),
            command_for(spoken@, all) == command_for(spoken@, all.skip(i as int)),
    {
        let phrase = normalize_for_matching(commands[i].0);
        assert(all.skip(i as int)[0] == all[i as int]);
        if *spoken == phrase {
            return Some(commands[i].1);
        }
        assert(all.skip(i as int).drop_first() =~= all.skip(i + 1));
    }
    None
}

/// `text` with the commands carried out one after the other.
pub open spec fn commands_replaced(
    text: Seq<char>,
    commands: Seq<(Seq<char>, Seq<char>)>,
) -> Seq<char>
    decreases commands.len(),
{
    if commands.len() == 0 {
        text
    } else {
        phrase_replaced(
            commands_replaced(text, commands.drop_last()),
            commands.last().0,
            commands.last().1,
        )
    }
}

/// Whether the replacements stand for themselves: none refers to a group of a pattern.
pub open spec fn plain_replacements(commands: Seq<(Seq<char>, Seq<char>)>) -> bool {
    forall|i: int| 0 <= i < commands.len() ==> !(#[trigger] commands[i]).1.contains('$')
}

/// Carries out each of the commands wherever it is spoken in `text`.
pub fn replace_commands(text: String, commands: &Vec<(&'static str, &'static str)>) -> (out: String)
    requires
        plain_replacements(command_views(commands@)),
    ensures
        out@ == commands_replaced(text@, command_views(commands@)),
{
    let ghost start = text@;
    let ghost all = command_views(commands@);
    let mut result = text;
    for i in 0..commands.len()
        invariant
            all == command_views(commands@),
            plain_replacements(all),
            result@ == commands_replaced(start, all.take(i as int)),
    {
        assert(!all[i as int].1.contains('$'));
        result = replace_phrase(result, commands[i].0, commands[i].1);
        assert(all.take(i + 1).drop_last() =~= all.take(i as int));
    }
    assert(all.take(commands@.len() as int) =~= all);
    result
}

/// What an utterance becomes under a list of commands. A full stop at its end goes first. If what
/// is left is a command and nothing else, it becomes the replacement; else each command is carried
/// out wherever it is spoken. The longest phrases come first.
pub open spec fn processed_with(
    text: Seq<char>,
    commands: Seq<(Seq<char>, Seq<char>)>,
) -> Seq<char> {
    if text.len() == 0 {
        text
    } else {
        let cleaned = without_final_period(text);
        let ordered = longest_first(commands);
        match command_for(normalized(cleaned), ordered) {
            Some(replacement) => replacement,
            None => commands_replaced(cleaned, ordered),
        }
    }
}

/// The replacements stay plain when the commands are sorted.
proof fn lemma_longest_first_plain(commands: Seq<(Seq<char>, Seq<char>)>)
    requires
        plain_replacements(commands),
    ensures
        plain_replacements(longest_first(commands)),
    decreases commands.len(),
{
    if commands.len() > 0 {
        let init = commands.drop_last();
        assert forall|i: int| 0 <= i < init.len() implies !(#[trigger] init[i]).1.contains('$') by {
            assert(!commands[i].1.contains('$'));
        }
        lemma_longest_first_plain(init);
        assert(!commands[commands.len() - 1].1.contains('$'));
        lemma_inserted_plain(longest_first(init), commands.last());
    }
}

proof fn lemma_inserted_plain(
    sorted: Seq<(Seq<char>, Seq<char>)>,
    command: (Seq<char>, Seq<char>),
)
    requires
        plain_replacements(sorted),
        !command.1.contains('$'),
    ensures
        plain_replacements(inserted(sorted, command)),
    decreases sorted.len(),
{
    if !(sorted.len() == 0 || byte_len(sorted.last().0) >= byte_len(command.0)) {
        let init = sorted.drop_last();
        assert forall|i: int| 0 <= i < init.len() implies !(#[trigger] init[i]).1.contains('$') by {
            assert(!sorted[i].1.contains('$'));
        }
        lemma_inserted_plain(init, command);
        assert(!sorted[sorted.len() - 1].1.contains('$'));
    }
}

/// Process text and apply the voice commands of a list.
pub fn process_text_with(text: &str, commands: &Vec<(&'static str, &'static str)>) -> (out: String)
    requires
        plain_replacements(command_views(commands@)),
    ensures
        out@ == processed_with(text@, command_views(commands@)),
{
    if text.is_empty() {
        let out = String::new();
        assert(out@ =~= text@);
        return out;
    }
    let cleaned = strip_final_period(text);
    let normalized = normalize_for_matching(cleaned.as_str());
    let ordered = sort_longest_first(commands);
    proof {
        lemma_longest_first_plain(command_views(commands@));
    }
    match find_command(&normalized, &ordered) {
        Some(replacement) => replacement.to_owned(),
        None => replace_commands(cleaned, &ordered),
    }
}

/// What an utterance becomes.
pub open spec fn processed(text: Seq<char>) -> Seq<char> {
    processed_with(text, voice_commands())
}

/// Process text and apply voice commands.
pub fn process_text(text: &str) -> (out: String)
    ensures
        out@ == processed(text@),
{
    let commands = get_commands();
    proof {
        reveal_strlit("\r\n");
        assert(plain_replacements(voice_commands()));
    }
    process_text_with(text, &commands)
}

// ---------------------------------------------------------------------------
// Laws
// ---------------------------------------------------------------------------

/// The commands of a list whose phrases are `len` bytes long, in the order of the list.
pub open spec fn of_length(commands: Seq<(Seq<char>, Seq<char>)>, len: nat) -> Seq<
    (Seq<char>, Seq<char>),
>
    decreases commands.len(),
{
    if commands.len() == 0 {
        commands
    } else if byte_len(commands.last().0) == len {
        of_length(commands.drop_last(), len).push(commands.last())
    } else {
        of_length(commands.drop_last(), len)
    }
}

proof fn lemma_of_length_inserted(
    sorted: Seq<(Seq<char>, Seq<char>)>,
    command: (Seq<char>, Seq<char>),
    len: nat,
)
    ensures
        of_length(inserted(sorted, command), len) == if byte_len(command.0) == len {
            of_length(sorted, len).push(command)
        } else {
            of_length(sorted, len)
        },
    decreases sorted.len(),
{
    if sorted.len() == 0 || byte_len(sorted.last().0) >= byte_len(command.0) {
        assert(sorted.push(command).drop_last() =~= sorted);
    } else {
        let init = sorted.drop_last();
        lemma_of_length_inserted(init, command, len);
        assert(inserted(init, command).push(sorted.last()).drop_last() =~= inserted(init, command));
    }
}

/// Sorting keeps each command, and keeps those of one length in the order in which they are
/// listed.
pub proof fn law_sorting_is_stable(commands: Seq<(Seq<char>, Seq<char>)>, len: nat)
    ensures
        of_length(longest_first(commands), len) == of_length(commands, len),
        longest_first(commands).len() == commands.len(),
    decreases commands.len(),
{
    if commands.len() > 0 {
        let init = commands.drop_last();
        law_sorting_is_stable(init, len);
        lemma_of_length_inserted(longest_first(init), commands.last(), len);
        lemma_inserted_len(longest_first(init), commands.last());
    }
}

proof fn lemma_inserted_len(sorted: Seq<(Seq<char>, Seq<char>)>, command: (Seq<char>, Seq<char>))
    ensures
        inserted(sorted, command).len() == sorted.len() + 1,
    decreases sorted.len(),
{
    if !(sorted.len() == 0 || byte_len(sorted.last().0) >= byte_len(command.0)) {
        lemma_inserted_len(sorted.drop_last(), command);
    }
}

/// No phrase is longer than one before it.
pub open spec fn is_longest_first(commands: Seq<(Seq<char>, Seq<char>)>) -> bool {
    forall|i: int, j: int|
        0 <= i < j < commands.len() ==> byte_len((#[trigger] commands[i]).0) >= byte_len(
            (#[trigger] commands[j]).0,
        )
}

/// Sorting puts longer phrases before shorter ones.
pub proof fn law_sorting_puts_longest_first(commands: Seq<(Seq<char>, Seq<char>)>)
    ensures
        is_longest_first(longest_first(commands)),
    decreases commands.len(),
{
    if commands.len() > 0 {
        let init = commands.drop_last();
        law_sorting_puts_longest_first(init);
        lemma_inserted_sorted(longest_first(init), commands.last());
    }
}

proof fn lemma_inserted_sorted(
    sorted: Seq<(Seq<char>, Seq<char>)>,
    command: (Seq<char>, Seq<char>),
)
    requires
        is_longest_first(sorted),
    ensures
        is_longest_first(inserted(sorted, command)),
        forall|i: int|
            0 <= i < inserted(sorted, command).len() ==> (#[trigger] inserted(sorted, command)[i])
                == command || sorted.contains(inserted(sorted, command)[i]),
    decreases sorted.len(),
{
    let result = inserted(sorted, command);
    if sorted.len() == 0 || byte_len(sorted.last().0) >= byte_len(command.0) {
        assert forall|i: int, j: int| 0 <= i < j < result.len() implies byte_len(
            (#[trigger] result[i]).0,
        ) >= byte_len((#[trigger] result[j]).0) by {
            if j == sorted.len() {
                let l = sorted.len() - 1;
                assert(i == l || byte_len(sorted[i].0) >= byte_len(sorted[l].0));
            }
        }
        assert forall|i: int| 0 <= i < result.len() implies (#[trigger] result[i]) == command
            || sorted.contains(result[i]) by {
            if i < sorted.len() {
                assert(result[i] == sorted[i]);
            }
        }
    } else {
        let init = sorted.drop_last();
        let last = sorted.last();
        assert(forall|i: int| 0 <= i < init.len() ==> init[i] == sorted[i]);
        lemma_inserted_sorted(init, command);
        let inner = inserted(init, command);
        assert forall|i: int| 0 <= i < inner.len() implies byte_len((#[trigger] inner[i]).0)
            >= byte_len(last.0) by {
            if inner[i] != command {
                assert(init.contains(inner[i]));
                let k = choose|k: int| 0 <= k < init.len() && init[k] == inner[i];
                assert(byte_len(sorted[k].0) >= byte_len(sorted[sorted.len() - 1].0));
            }
        }
        assert forall|i: int, j: int| 0 <= i < j < result.len() implies byte_len(
            (#[trigger] result[i]).0,
        ) >= byte_len((#[trigger] result[j]).0) by {
            assert(result[i] == inner[i]);
            if j < inner.len() {
                assert(result[j] == inner[j]);
            }
        }
        assert forall|i: int| 0 <= i < result.len() implies (#[trigger] result[i]) == command
            || sorted.contains(result[i]) by {
            if i < inner.len() {
                assert(result[i] == inner[i]);
                if inner[i] != command {
                    let k = choose|k: int| 0 <= k < init.len() && init[k] == inner[i];
                    assert(sorted[k] == inner[i]);
                }
            } else {
                assert(sorted[sorted.len() - 1] == result[i]);
            }
        }
    }
}

/// Of several commands with the phrase that was spoken the first counts, and without one there is
/// no command.
pub proof fn law_first_command_counts(
    spoken: Seq<char>,
    commands: Seq<(Seq<char>, Seq<char>)>,
    at: int,
)
    requires
        0 <= at <= commands.len(),
        forall|j: int| 0 <= j < at ==> spoken != normalized((#[trigger] commands[j]).0),
    ensures
        at == commands.len() ==> command_for(spoken, commands) is None,
        at < commands.len() && spoken == normalized(commands[at].0) ==> command_for(
            spoken,
            commands,
        ) == Some(commands[at].1),
    decreases at,
{
    if at > 0 {
        let rest = commands.drop_first();
        assert(spoken != normalized(commands[0].0));
        assert forall|j: int| 0 <= j < at - 1 implies spoken != normalized(
            (#[trigger] rest[j]).0,
        ) by {
            assert(rest[j] == commands[j + 1]);
        }
        law_first_command_counts(spoken, rest, at - 1);
    }
}

/// Commands are carried out one after the other, each on what the ones before it left.
pub proof fn law_commands_follow_one_another(
    text: Seq<char>,
    xs: Seq<(Seq<char>, Seq<char>)>,
    ys: Seq<(Seq<char>, Seq<char>)>,
    phrase: Seq<char>,
    replacement: Seq<char>,
)
    ensures
        commands_replaced(text, Seq::empty()) == text,
        commands_replaced(text, seq![(phrase, replacement)]) == phrase_replaced(
            text,
            phrase,
            replacement,
        ),
        commands_replaced(text, xs + ys) == commands_replaced(commands_replaced(text, xs), ys),
    decreases ys.len(),
{
    let one = seq![(phrase, replacement)];
    assert(one.drop_last() =~= Seq::empty());
    assert(commands_replaced(text, one.drop_last()) == text);
    if ys.len() == 0 {
        assert(xs + ys =~= xs);
    } else {
        law_commands_follow_one_another(text, xs, ys.drop_last(), phrase, replacement);
        assert((xs + ys).drop_last() =~= xs + ys.drop_last());
        assert((xs + ys).last() == ys.last());
    }
}

/// An utterance that says the phrase of a command and nothing else becomes its replacement, where
/// no command that goes before it, by the length of its phrase, has the same phrase. Where no
/// command has it, all of them are carried out within the utterance, in that order.
pub proof fn law_longest_command_goes_first(
    text: Seq<char>,
    commands: Seq<(Seq<char>, Seq<char>)>,
    at: int,
)
    requires
        text.len() > 0,
        0 <= at <= longest_first(commands).len(),
        forall|j: int|
            0 <= j < at ==> normalized(without_final_period(text)) != normalized(
                (#[trigger] longest_first(commands)[j]).0,
            ),
    ensures
        at == longest_first(commands).len() ==> processed_with(text, commands)
            == commands_replaced(without_final_period(text), longest_first(commands)),
        at < longest_first(commands).len() && normalized(without_final_period(text)) == normalized(
            longest_first(commands)[at].0,
        ) ==> processed_with(text, commands) == longest_first(commands)[at].1,
        processed_with(Seq::empty(), commands) == Seq::<char>::empty(),
{
    law_first_command_counts(normalized(without_final_period(text)), longest_first(commands), at);
}

/// The phrases and replacements of a list of commands are those of each command, in the order of the
/// list.
pub proof fn law_command_views(commands: Seq<(&'static str, &'static str)>)
    ensures
        command_views(commands).len() == commands.len(),
        forall|i: int|
            0 <= i < commands.len() ==> #[trigger] command_views(commands)[i] == (
                commands[i].0@,
                commands[i].1@,
            ),
{
}

} // verus!
