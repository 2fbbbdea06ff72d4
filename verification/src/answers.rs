//! What the functions of the library give back for what they are given, in one place: each law here
//! speaks of whatever value a call may return.

use vstd::prelude::*;

use crate::args::{invocation, is_option, parse_args, Invocation};
use crate::commands::{
    collapse_whitespace, collapsed, command_for, command_views, commands_replaced, discarded,
    find_command, get_commands, get_discard_phrases, is_discard_phrase, is_noise, keep_letters,
    letters_only, longest_first, normalize_for_matching, normalized, process_text,
    process_text_with, processed, processed_with, replace_commands, should_discard,
    sort_longest_first,
};
use crate::decimal::{number, parse_number};
use crate::exchange::{Exchange, ExchangeAction, ExchangeEvent, ExchangeView};
use crate::hotkey::{
    flag_action, on_flag, on_poll, poll_action, ListenerAction, Modifiers, Polled, Setup,
    SetupAction, SetupView,
};
use crate::ipc::{
    announced_length, get_request, keep_parsed, law_each_line_is_read, length_prefix,
    lines_to_parse, outcome_view, prefix_of, present, read_marker_set, request, set_request,
    transcription_lines, transcription_views, IpcRequest, IpcResponse, Transcription,
};
use crate::pattern::{
    build_phrase_pattern, phrase_pattern, phrase_replaced, replace_phrase, strip_final_period,
    without_final_period,
};
use crate::session::{Action, Event, Session, SessionView};
use crate::text::{
    blank, chars_of, is_blank, is_white_space, is_whitespace, join, joined, lines_of, same_text,
    split_lines, split_words, string_of, trim, trimmed, views, words_of, Edges,
};
use crate::timestamp::{format_timestamp, timestamp};
use crate::utterance::{
    display_text, law_elapsed, law_pause_and_gap, law_written_without_timestamps, mark_feeds,
    mark_returns, millis_between, shown, text_to_write, written, Tracking,
};

verus! {

/// Texts are taken apart and put together as they are.
pub proof fn law_answers_on_texts(
    s: &str,
    other: &str,
    chars: Vec<char>,
    from: usize,
    to: usize,
    out: String,
    same: bool,
)
    ensures
        call_ensures(chars_of, (s,), chars) ==> chars@ == s@,
        call_ensures(string_of, (&chars, from, to), out) ==> out@ == chars@.subrange(
            from as int,
            to as int,
        ),
        call_ensures(same_text, (s, other), same) ==> (same <==> s@ == other@),
{
}

/// White space, edges, words and lines of a text are those of the text.
pub proof fn law_answers_on_parts_of_texts(
    s: &str,
    c: char,
    edges: Edges,
    yes: bool,
    out: String,
    parts: Vec<String>,
)
    ensures
        call_ensures(is_whitespace, (c,), yes) ==> (yes <==> is_white_space(c)),
        call_ensures(is_blank, (s,), yes) ==> (yes <==> blank(s@)),
        call_ensures(Edges::contains, (&edges, c), yes) ==> (yes <==> edges.has(c)),
        call_ensures(trim, (s, &edges), out) ==> out@ == trimmed(s@, edges),
        call_ensures(split_words, (s,), parts) ==> views(parts@) == words_of(s@),
        call_ensures(split_lines, (s,), parts) ==> views(parts@) == lines_of(s@),
        call_ensures(join, (&parts, s), out) ==> out@ == joined(views(parts@), s@),
{
}

/// Patterns are those of the phrases, and only the full stop at the end of a text goes.
pub proof fn law_answers_on_patterns(
    s: &str,
    text: String,
    phrase: &str,
    replacement: &str,
    out: String,
)
    ensures
        call_ensures(strip_final_period, (s,), out) ==> out@ == without_final_period(s@),
        call_ensures(build_phrase_pattern, (s,), out) ==> out@ == phrase_pattern(s@),
        call_ensures(replace_phrase, (text, phrase, replacement), out) ==> out@ == phrase_replaced(
            text@,
            phrase@,
            replacement@,
        ),
{
}

/// An utterance is judged, normalized and processed by all of its text.
pub proof fn law_answers_on_utterances(s: &str, yes: bool, out: String)
    ensures
        call_ensures(is_discard_phrase, (s,), yes) ==> (yes <==> is_noise(s@)),
        call_ensures(should_discard, (s,), yes) ==> (yes <==> discarded(s@)),
        call_ensures(keep_letters, (s,), out) ==> out@ == letters_only(s@),
        call_ensures(collapse_whitespace, (s,), out) ==> out@ == collapsed(s@),
        call_ensures(normalize_for_matching, (s,), out) ==> out@ == normalized(s@),
        call_ensures(process_text, (s,), out) ==> out@ == processed(s@),
{
}

/// The lists are those of the phrases to discard and of the commands, and commands are sorted, found
/// and carried out by all of the list.
pub proof fn law_answers_on_commands(
    phrases: Vec<&'static str>,
    commands: Vec<(&'static str, &'static str)>,
    sorted: Vec<(&'static str, &'static str)>,
    s: &str,
    text: String,
    found: Option<&'static str>,
    out: String,
)
    ensures
        call_ensures(get_discard_phrases, (), phrases) ==> phrases@.len() == 3 && phrases@[0]@
            == "thank you"@ && phrases@[1]@ == "thanks"@ && phrases@[2]@ == "you"@,
        call_ensures(get_commands, (), commands) ==> commands@.len() == 1 && commands@[0].0@
            == "command enter"@ && commands@[0].1@ == "\r\n"@,
        call_ensures(sort_longest_first, (&commands,), sorted) ==> command_views(sorted@)
            == longest_first(command_views(commands@)),
        call_ensures(find_command, (&text, &commands), found) ==> match found {
            Some(replacement) => command_for(text@, command_views(commands@)) == Some(
                replacement@,
            ),
            None => command_for(text@, command_views(commands@)) is None,
        },
        call_ensures(replace_commands, (text, &commands), out) ==> out@ == commands_replaced(
            text@,
            command_views(commands@),
        ),
        call_ensures(process_text_with, (s, &commands), out) ==> out@ == processed_with(
            s@,
            command_views(commands@),
        ),
{
    if call_ensures(get_discard_phrases, (), phrases) {
        let all = Seq::new(3, |i: int| phrases@[i]@);
        assert(all[0] == phrases@[0]@ && all[1] == phrases@[1]@ && all[2] == phrases@[2]@);
    }
    if call_ensures(get_commands, (), commands) {
        let all = command_views(commands@);
        assert(all.len() == commands@.len());
        assert(all[0] == (commands@[0].0@, commands@[0].1@));
    }
}

/// Numbers, timestamps and command lines are read and written whole.
pub proof fn law_answers_on_arguments(
    s: &str,
    ms: u128,
    args: Vec<String>,
    read: Option<u64>,
    out: String,
    yes: bool,
    asked: Invocation,
)
    ensures
        call_ensures(parse_number, (s,), read) ==> read == number(s@),
        call_ensures(format_timestamp, (ms,), out) ==> out@ == timestamp(ms as nat),
        call_ensures(is_option, (s,), yes) ==> (yes <==> s@.len() > 0 && s@[0] == '-'),
        call_ensures(parse_args, (&args,), asked) ==> asked@ == invocation(views(args@)),
{
}

/// Requests name the command and the client; messages are framed by their length; responses are
/// read if the server carried the request out.
pub proof fn law_answers_on_messages(
    command: &str,
    uid: &str,
    asked: IpcRequest,
    len: usize,
    prefix: Vec<u8>,
    outcome: Result<IpcResponse, String>,
    yes: bool,
    lines: Vec<String>,
    parsed: Vec<Option<Transcription>>,
    kept: Vec<Transcription>,
)
    ensures
        call_ensures(request, (command, uid), asked) ==> asked.command@ == command@ && asked.uid@
            == uid@,
        call_ensures(set_request, (), asked) ==> asked.command@ == "set"@ && asked.uid@
            == "whisper-notes"@,
        call_ensures(get_request, (), asked) ==> asked.command@ == "get"@ && asked.uid@
            == "whisper-notes"@,
        call_ensures(length_prefix, (len,), prefix) ==> prefix@ == prefix_of(len as nat),
        prefix@.len() == 4 && call_ensures(announced_length, (&prefix,), len) ==> len == prefix@[0]
            * 0x100_0000 + prefix@[1] * 0x1_0000 + prefix@[2] * 0x100 + prefix@[3],
        call_ensures(read_marker_set, (&outcome,), yes) ==> (yes <==> outcome is Ok
            && outcome->Ok_0.status@ == "ok"@),
        call_ensures(lines_to_parse, (&outcome,), lines) ==> views(lines@) == transcription_lines(
            outcome_view(outcome),
        ),
        call_ensures(keep_parsed, (parsed,), kept) ==> transcription_views(kept@) == present(
            parsed@,
        ),
{
}

/// A response of one line, with its end or without, gives that line.
pub proof fn law_one_line_is_read(response: IpcResponse, lines: Vec<String>, line: Seq<char>)
    requires
        response.status@ == "ok"@,
        line.len() > 0,
        !line.contains('\n'),
        line.last() != '\r',
        response.text@ == line || response.text@ == line.push('\n'),
        call_ensures(
            lines_to_parse,
            (&Ok::<IpcResponse, String>(response),),
            lines,
        ),
    ensures
        lines@.len() == 1,
        lines@[0]@ == line,
{
    let none = Seq::<char>::empty();
    reveal_strlit("ok");
    assert("ok"@ =~= seq!['o', 'k']);
    law_each_line_is_read(none, line);
    assert(none + line =~= line);
    assert(none + line + seq!['\n'] =~= line.push('\n'));
    assert(Seq::<Seq<char>>::empty().push(line) =~= seq![line]);
    let read = views(lines@);
    assert(read == seq![line]);
    assert(read[0] == lines@[0]@);
}

/// Each step of an exchange goes by what was to be done and how it went.
pub proof fn law_answers_of_exchanges(
    asked: IpcRequest,
    state: Exchange,
    action: ExchangeAction,
    event: ExchangeEvent,
    next: Exchange,
)
    ensures
        call_ensures(Exchange::new, (asked,), state) ==> state@ == ExchangeView::Connecting(asked@),
        call_ensures(Exchange::action, (&state,), action) ==> action@ == state@.action(),
        call_ensures(Exchange::advance, (state, event), next) ==> next@ == state@.next(event@),
{
}

/// The hotkey is set up and listened for step by step.
pub proof fn law_answers_on_the_hotkey(
    modifiers: Modifiers,
    masks: Vec<u16>,
    state: Setup,
    action: SetupAction,
    next: Setup,
    detail: &str,
    should_quit: bool,
    polled: Polled,
    then: ListenerAction,
)
    ensures
        call_ensures(Modifiers::grabs, (&modifiers,), masks) ==> masks@ == modifiers.combinations(),
        call_ensures(Setup::new, (), state) ==> state@ == SetupView::Connecting,
        call_ensures(Setup::action, (&state,), action) ==> action@ == state@.action(),
        call_ensures(Setup::done, (state, &modifiers), next) ==> next@ == state@.done(modifiers),
        call_ensures(Setup::failed, (state, detail), next) ==> next@ == state@.failed(detail@),
        call_ensures(on_flag, (should_quit,), then) ==> then == flag_action(should_quit),
        call_ensures(on_poll, (polled,), then) ==> then == poll_action(polled),
{
}

/// Time is measured in whole milliseconds, and the pause is held against the gap.
pub proof fn law_answers_on_time(
    from: u128,
    now: u128,
    ms: u128,
    tracking: Tracking,
    gap_ms: u64,
    yes: bool,
)
    ensures
        call_ensures(millis_between, (from, now), ms) && now >= from ==> ms * 1_000_000 <= now
            - from < (ms + 1) * 1_000_000,
        call_ensures(millis_between, (from, now), ms) && now < from ==> ms == 0,
        call_ensures(Tracking::millis_listening, (&tracking, now), ms) && tracking.started_at
            == Some(from) && now >= from ==> ms * 1_000_000 <= now - from < (ms + 1) * 1_000_000,
        call_ensures(Tracking::needs_new_line, (&tracking, gap_ms, now), yes) && !tracking.first
            && tracking.last_at == Some(from) ==> (yes <==> now - from >= (gap_ms + 1) * 1_000_000),
        call_ensures(Tracking::needs_new_line, (&tracking, gap_ms, now), yes) && (tracking.first
            || tracking.last_at is None) ==> yes,
{
    law_elapsed(from, now);
    law_pause_and_gap(tracking, gap_ms, from, now);
}

/// What is appended holds all of the processed utterance.
pub proof fn law_answers_on_what_is_written(
    done: String,
    gap_ms: Option<u64>,
    tracking: Tracking,
    now: u128,
    after: Tracking,
    out: String,
    s: &str,
)
    ensures
        call_ensures(text_to_write, (done, gap_ms, &tracking, now), out) ==> out@ == written(
            done@,
            gap_ms,
            tracking,
            now,
        ),
        call_ensures(text_to_write, (done, None, &tracking, now), out) && (exists|k: int|
            0 <= k < done@.len() && !is_white_space(#[trigger] done@[k])) ==> out@ == done@.push(
            ' ',
        ),
        call_ensures(text_to_write, (done, None, &tracking, now), out) && (forall|k: int|
            0 <= k < done@.len() ==> is_white_space(#[trigger] done@[k])) ==> out@ == done@,
        call_ensures(Tracking::after_write, (&tracking, gap_ms, now), after) ==> after.started_at
            == tracking.started_at && (gap_ms is Some ==> after.last_at == Some(now)
            && !after.first) && (gap_ms is None ==> after == tracking),
        call_ensures(mark_returns, (s,), out) ==> out@ == crate::utterance::returns_marked(s@),
        call_ensures(mark_feeds, (s,), out) ==> out@ == crate::utterance::feeds_marked(s@),
        call_ensures(display_text, (s,), out) ==> out@ == shown(s@),
{
    law_written_without_timestamps(done@, tracking, now);
}

/// Each step of the program goes by what was to be done and how it went.
pub proof fn law_answers_of_sessions(
    gap_ms: Option<u64>,
    state: Session,
    action: Action,
    event: Event,
    next: Session,
)
    ensures
        call_ensures(Session::new, (gap_ms,), state) ==> state@ == SessionView::initial(gap_ms),
        call_ensures(Session::action, (&state,), action) ==> action@ == state@.action(),
        call_ensures(Session::advance, (state, event), next) ==> next@ == state@.next(event@),
{
}

} // verus!
