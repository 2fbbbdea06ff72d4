//! One utterance: what is appended to the file for it, and what is shown of it.

use vstd::prelude::*;

use crate::commands::{discard_phrases, discarded, normalized, process_text, processed, should_discard};
use crate::letters::{ascii_lower, ascii_lowered, lowercase};
use crate::normal::{is_letterless, no_letters};
use crate::spoken::{
    law_command_in_any_case, law_command_is_not_noise, law_noise_in_any_case,
    law_spoken_command_is_kept, law_text_around_a_command, says,
};
use crate::text::{
    blank, chars_of, is_blank, is_white_space, law_trimmed_leaves_the_core, lemma_trimmed_around,
    trim, trimmed, Edges,
};
use crate::timestamp::{format_timestamp, timestamp};

verus! {

/// What timestamps depend on. Points in time are nanoseconds of one clock.
#[derive(Clone, Copy)]
pub struct Tracking {
    /// When listening started.
    pub started_at: Option<u128>,
    /// When the last utterance was written.
    pub last_at: Option<u128>,
    /// Whether no utterance has been written since listening started.
    pub first: bool,
}

/// What becomes of an utterance.
pub enum Outcome {
    /// Nothing: there is no text.
    Nothing,
    /// It is noise.
    Discarded(String),
    /// `to_write` is appended to the file for `text`.
    Append { text: String, to_write: String },
}

/// What becomes of an utterance, with texts as sequences of characters.
pub enum OutcomeView {
    Nothing,
    Discarded(Seq<char>),
    Append { text: Seq<char>, to_write: Seq<char> },
}

impl View for Outcome {
    type V = OutcomeView;

    open spec fn view(&self) -> OutcomeView {
        match self {
            Outcome::Nothing => OutcomeView::Nothing,
            Outcome::Discarded(text) => OutcomeView::Discarded(text@),
            Outcome::Append { text, to_write } => OutcomeView::Append {
                text: text@,
                to_write: to_write@,
            },
        }
    }
}

// ---------------------------------------------------------------------------
// Time
// ---------------------------------------------------------------------------

/// The whole milliseconds from one point in time to another, none if it lies before.
pub open spec fn elapsed_ms(from: u128, now: u128) -> nat {
    if now >= from {
        ((now - from) / 1_000_000) as nat
    } else {
        0
    }
}

/// The whole milliseconds from one point in time to another, none if it lies before.
pub fn millis_between(from: u128, now: u128) -> (out: u128)
    ensures
        out == elapsed_ms(from, now),
{
    if now >= from {
        (now - from) / 1_000_000
    } else {
        0
    }
}

impl Tracking {
    /// Listening starts now.
    pub open spec fn start(now: u128) -> Tracking {
        Tracking { started_at: Some(now), last_at: None, first: true }
    }

    /// How long, in milliseconds, listening has gone on.
    pub open spec fn listening_ms(self, now: u128) -> nat {
        match self.started_at {
            Some(started_at) => elapsed_ms(started_at, now),
            None => 0,
        }
    }

    /// Whether an utterance begins a new line: it is the first one, or the pause since the last
    /// one is longer than the gap.
    pub open spec fn new_line(self, gap_ms: u64, now: u128) -> bool {
        self.first || match self.last_at {
            Some(last_at) => elapsed_ms(last_at, now) > gap_ms,
            None => true,
        }
    }

    /// An utterance is written now. Without timestamps nothing is kept of it.
    pub open spec fn wrote(self, gap_ms: Option<u64>, now: u128) -> Tracking {
        if gap_ms is Some {
            Tracking { started_at: self.started_at, last_at: Some(now), first: false }
        } else {
            self
        }
    }

    /// How long, in milliseconds, listening has gone on.
    pub fn millis_listening(&self, now: u128) -> (out: u128)
        ensures
            out == self.listening_ms(now),
    {
        match self.started_at {
            Some(started_at) => millis_between(started_at, now),
            None => 0,
        }
    }

    /// Whether an utterance begins a new line.
    pub fn needs_new_line(&self, gap_ms: u64, now: u128) -> (yes: bool)
        ensures
            yes == self.new_line(gap_ms, now),
    {
        if self.first {
            true
        } else {
            match self.last_at {
                Some(last_at) => millis_between(last_at, now) > gap_ms as u128,
                None => true,
            }
        }
    }

    /// An utterance is written now.
    pub fn after_write(&self, gap_ms: Option<u64>, now: u128) -> (out: Tracking)
        ensures
            out == self.wrote(gap_ms, now),
    {
        match gap_ms {
            Some(_) => Tracking { started_at: self.started_at, last_at: Some(now), first: false },
            None => *self,
        }
    }
}

// ---------------------------------------------------------------------------
// What is written
// ---------------------------------------------------------------------------

/// What is appended for a processed utterance. With timestamps: a new line with the time since
/// listening started, or a space on the same line. Without: a space behind, unless there is
/// nothing but white space.
pub open spec fn written(
    processed: Seq<char>,
    gap_ms: Option<u64>,
    tracking: Tracking,
    now: u128,
) -> Seq<char> {
    match gap_ms {
        Some(gap_ms) => if tracking.new_line(gap_ms, now) {
            "\n["@ + timestamp(tracking.listening_ms(now)) + "] "@ + processed
        } else {
            " "@ + processed
        },
        None => if blank(processed) {
            processed
        } else {
            processed + " "@
        },
    }
}

/// The text to append for a processed utterance.
pub fn text_to_write(
    processed: String,
    gap_ms: Option<u64>,
    tracking: &Tracking,
    now: u128,
) -> (out: String)
    ensures
        out@ == written(processed@, gap_ms, *tracking, now),
{
    match gap_ms {
        Some(gap_ms) => {
            if tracking.needs_new_line(gap_ms, now) {
                let stamp = format_timestamp(tracking.millis_listening(now));
                let mut out = "\n[".to_owned();
                out.append(stamp.as_str());
                out.append("] ");
                out.append(processed.as_str());
                out
            } else {
                let mut out = " ".to_owned();
                out.append(processed.as_str());
                out
            }
        },
        None => {
            if is_blank(processed.as_str()) {
                processed
            } else {
                let mut out = processed;
                out.append(" ");
                out
            }
        },
    }
}

/// What becomes of an utterance: white space around it goes; if nothing is left, or nothing of it
/// is left once it is processed, there is nothing to do; noise is discarded; the rest is appended.
pub open spec fn outcome(
    utterance: Seq<char>,
    gap_ms: Option<u64>,
    tracking: Tracking,
    now: u128,
) -> OutcomeView {
    let text = trimmed(utterance, Edges::White);
    if text.len() == 0 {
        OutcomeView::Nothing
    } else if discarded(text) {
        OutcomeView::Discarded(text)
    } else if processed(text).len() == 0 {
        OutcomeView::Nothing
    } else {
        OutcomeView::Append { text, to_write: written(processed(text), gap_ms, tracking, now) }
    }
}

/// What timestamps depend on once an utterance has been handled.
pub open spec fn tracking_after(
    utterance: Seq<char>,
    gap_ms: Option<u64>,
    tracking: Tracking,
    now: u128,
) -> Tracking {
    if outcome(utterance, gap_ms, tracking, now) is Append {
        tracking.wrote(gap_ms, now)
    } else {
        tracking
    }
}

/// Handles an utterance.
pub fn handle_utterance(
    utterance: &str,
    gap_ms: Option<u64>,
    tracking: &mut Tracking,
    now: u128,
) -> (out: Outcome)
    ensures
        out@ == outcome(utterance@, gap_ms, *old(tracking), now),
        *final(tracking) == tracking_after(utterance@, gap_ms, *old(tracking), now),
{
    let text = trim(utterance, &Edges::White);
    if text.as_str().is_empty() {
        return Outcome::Nothing;
    }
    if should_discard(text.as_str()) {
        return Outcome::Discarded(text);
    }
    let processed = process_text(text.as_str());
    if processed.as_str().is_empty() {
        return Outcome::Nothing;
    }
    let to_write = text_to_write(processed, gap_ms, tracking, now);
    *tracking = tracking.after_write(gap_ms, now);
    Outcome::Append { text, to_write }
}

// ---------------------------------------------------------------------------
// What is shown
// ---------------------------------------------------------------------------

/// `s` with a return sign in place of each carriage return that a line feed follows.
pub open spec fn returns_marked(s: Seq<char>) -> Seq<char>
    decreases s.len(),
{
    if s.len() == 0 {
        s
    } else if s.len() >= 2 && s[0] == '\r' && s[1] == '\n' {
        seq!['\u{23ce}', '\n'] + returns_marked(s.skip(2))
    } else {
        seq![s[0]] + returns_marked(s.drop_first())
    }
}

/// `s` with a return sign in front of each line feed.
pub open spec fn feeds_marked(s: Seq<char>) -> Seq<char>
    decreases s.len(),
{
    if s.len() == 0 {
        s
    } else if s.last() == '\n' {
        feeds_marked(s.drop_last()).push('\u{23ce}').push('\n')
    } else {
        feeds_marked(s.drop_last()).push(s.last())
    }
}

/// What is shown of a text that was appended: its line ends made visible, and no white space
/// around it.
pub open spec fn shown(to_write: Seq<char>) -> Seq<char> {
    trimmed(feeds_marked(returns_marked(to_write)), Edges::White)
}

/// Puts a return sign in place of each carriage return that a line feed follows.
pub fn mark_returns(s: &str) -> (out: String)
    ensures
        out@ == returns_marked(s@),
{
    let chars = chars_of(s);
    let mut out = String::new();
    let mut i: usize = 0;
    assert(s@.skip(0) =~= s@);
    while i < chars.len()
        invariant
            i <= chars.len(),
            chars@ == s@,
            returns_marked(s@) =~= out@ + returns_marked(s@.skip(i as int)),
        decreases chars.len() - i,
    {
        let ghost rest = s@.skip(i as int);
        if chars.len() - i >= 2 && chars[i] == '\r' && chars[i + 1] == '\n' {
            out.push('\u{23ce}');
            out.push('\n');
            assert(rest.skip(2) =~= s@.skip(i + 2));
            i = i + 2;
        } else {
            out.push(chars[i]);
            assert(rest.drop_first() =~= s@.skip(i + 1));
            i = i + 1;
        }
    }
    out
}

/// Puts a return sign in front of each line feed.
pub fn mark_feeds(s: &str) -> (out: String)
    ensures
        out@ == feeds_marked(s@),
{
    let chars = chars_of(s);
    let mut out = String::new();
    for i in 0..chars.len()
        invariant
            chars@ == s@,
            out@ == feeds_marked(s@.take(i as int)),
    {
        if chars[i] == '\n' {
            out.push('\u{23ce}');
        }
        out.push(chars[i]);
        assert(s@.take(i + 1).drop_last() =~= s@.take(i as int));
    }
    assert(s@.take(s@.len() as int) =~= s@);
    out
}

/// What to show of a text that was appended.
pub fn display_text(to_write: &str) -> (out: String)
    ensures
        out@ == shown(to_write@),
{
    let marked = mark_returns(to_write);
    let marked = mark_feeds(marked.as_str());
    trim(marked.as_str(), &Edges::White)
}

// ---------------------------------------------------------------------------
// Laws
// ---------------------------------------------------------------------------

/// With timestamps, the first utterance since listening started begins a new line that carries the
/// time since then.
pub proof fn law_first_utterance_is_stamped(
    utterance: Seq<char>,
    gap_ms: u64,
    started_at: u128,
    now: u128,
)
    ensures
        outcome(utterance, Some(gap_ms), Tracking::start(started_at), now) matches
            OutcomeView::Append { text, to_write } ==> to_write == "\n["@ + timestamp(
            elapsed_ms(started_at, now),
        ) + "] "@ + processed(text),
{
}

/// With timestamps, an utterance behind another begins a new line if and only if the pause between
/// them is longer than the gap; else it goes on the same line behind a space.
pub proof fn law_gap_decides_about_new_line(
    earlier: Seq<char>,
    utterance: Seq<char>,
    gap_ms: u64,
    tracking: Tracking,
    then: u128,
    now: u128,
)
    requires
        outcome(earlier, Some(gap_ms), tracking, then) is Append,
    ensures
        ({
            let after = tracking_after(earlier, Some(gap_ms), tracking, then);
            outcome(utterance, Some(gap_ms), after, now) matches OutcomeView::Append {
                text,
                to_write,
            } ==> to_write == if elapsed_ms(then, now) > gap_ms {
                "\n["@ + timestamp(tracking.listening_ms(now)) + "] "@ + processed(text)
            } else {
                " "@ + processed(text)
            }
        }),
{
}

/// Utterances that leave nothing to append leave the timestamps as they were, and so does every
/// utterance without timestamps.
pub proof fn law_only_stamped_writes_are_tracked(
    utterance: Seq<char>,
    gap_ms: Option<u64>,
    tracking: Tracking,
    now: u128,
)
    requires
        gap_ms is None || !(outcome(utterance, gap_ms, tracking, now) is Append),
    ensures
        tracking_after(utterance, gap_ms, tracking, now) == tracking,
{
}

/// White space around an utterance makes no difference.
pub proof fn law_surrounding_space_does_not_matter(
    before: Seq<char>,
    utterance: Seq<char>,
    behind: Seq<char>,
    gap_ms: Option<u64>,
    tracking: Tracking,
    now: u128,
)
    requires
        blank(before),
        blank(behind),
    ensures
        outcome(before + utterance + behind, gap_ms, tracking, now) == outcome(
            utterance,
            gap_ms,
            tracking,
            now,
        ),
{
    crate::text::law_edges_do_not_matter(before, utterance, behind, Edges::White);
}

/// What is appended is never empty.
pub proof fn law_no_empty_write(
    utterance: Seq<char>,
    gap_ms: Option<u64>,
    tracking: Tracking,
    now: u128,
)
    ensures
        outcome(utterance, gap_ms, tracking, now) matches OutcomeView::Append { to_write, .. }
            ==> to_write.len() > 0,
{
    reveal_strlit("\n[");
    reveal_strlit(" ");
}

/// Saying `command enter` inserts a line end and nothing else: the two words in any case, with
/// anything but letters before, between and behind them, without timestamps.
#[verifier::spinoff_prover]
#[verifier::rlimit(60)]
pub proof fn law_command_enter_inserts_line_end(
    before: Seq<char>,
    first: Seq<char>,
    between: Seq<char>,
    second: Seq<char>,
    behind: Seq<char>,
    tracking: Tracking,
    now: u128,
)
    requires
        says(first, "command"@),
        says(second, "enter"@),
        no_letters(before),
        no_letters(between),
        no_letters(behind),
        between.len() > 0,
    ensures
        outcome(before + first + between + second + behind, None, tracking, now) matches
            OutcomeView::Append { to_write, .. } && to_write == "\r\n"@,
{
    let all = before + first + between + second + behind;
    let (front, back) = lemma_trimmed_command(before, first, between, second, behind);
    let text = front + first + between + second + back;
    law_command_in_any_case(front, first, between, second, back);
    law_spoken_command_is_kept(text);
    lemma_line_end_is_written(all, text, tracking, now);
}

/// An utterance that becomes a line end is written as one, without timestamps.
proof fn lemma_line_end_is_written(
    utterance: Seq<char>,
    text: Seq<char>,
    tracking: Tracking,
    now: u128,
)
    requires
        text == trimmed(utterance, Edges::White),
        text.len() > 0,
        !discarded(text),
        processed(text) == "\r\n"@,
    ensures
        outcome(utterance, None, tracking, now) == (OutcomeView::Append {
            text,
            to_write: "\r\n"@,
        }),
{
    reveal_strlit("\r\n");
    assert(blank("\r\n"@));
}

/// White space goes from around the command, and what is left is the command still.
#[verifier::spinoff_prover]
#[verifier::rlimit(60)]
proof fn lemma_trimmed_command(
    before: Seq<char>,
    first: Seq<char>,
    between: Seq<char>,
    second: Seq<char>,
    behind: Seq<char>,
) -> (ends: (Seq<char>, Seq<char>))
    requires
        says(first, "command"@),
        says(second, "enter"@),
        no_letters(before),
        no_letters(behind),
    ensures
        trimmed(before + first + between + second + behind, Edges::White) == ends.0 + first
            + between + second + ends.1,
        no_letters(ends.0),
        no_letters(ends.1),
        first.len() > 0,
{
    let core = first + between + second;
    reveal_strlit("command");
    reveal_strlit("enter");
    let low = ascii_lowered(first);
    assert(low == "command"@);
    assert("command"@.len() == 7 && "command"@[0] == 'c');
    assert(low.len() == 7 && low[0] == 'c' && low[0] == ascii_lower(first[0]));
    let low = ascii_lowered(second);
    assert(low == "enter"@);
    assert("enter"@.len() == 5 && "enter"@[4] == 'r');
    assert(low.len() == 5 && low[4] == 'r' && low[4] == ascii_lower(second[4]));
    assert(core[0] == first[0] && core.last() == second[4]);
    let (i, j) = lemma_trimmed_around(before, core, behind, Edges::White);
    let front = before.skip(i);
    let back = behind.take(j);
    let all = before + first + between + second + behind;
    let text = front + first + between + second + back;
    assert(all =~= before + core + behind);
    assert(text =~= front + core + back);
    assert forall|k: int| 0 <= k < front.len() implies is_letterless(#[trigger] front[k]) by {
        assert(front[k] == before[k + i]);
    }
    assert forall|k: int| 0 <= k < back.len() implies is_letterless(#[trigger] back[k]) by {
        assert(back[k] == behind[k]);
    }
    (front, back)
}

/// Time is counted in whole milliseconds, however many, and what is left over does not count. A
/// clock that went back counts nothing.
pub proof fn law_elapsed(from: u128, now: u128)
    ensures
        now >= from ==> elapsed_ms(from, now) * 1_000_000 <= now - from < (elapsed_ms(from, now)
            + 1) * 1_000_000,
        now < from ==> elapsed_ms(from, now) == 0,
{
}

/// So many milliseconds later, so many milliseconds have passed.
pub proof fn law_elapsed_later(from: u128, ms: nat, rest: nat, now: u128)
    requires
        rest < 1_000_000,
        now == from + ms * 1_000_000 + rest,
    ensures
        elapsed_ms(from, now) == ms,
{
    law_elapsed(from, now);
}

/// Listening has gone on for the whole milliseconds since it started, and for none if it never did.
pub proof fn law_listening_time(tracking: Tracking, started_at: u128, now: u128)
    ensures
        tracking.started_at is None ==> tracking.listening_ms(now) == 0,
        tracking.started_at == Some(started_at) && now >= started_at ==> tracking.listening_ms(now)
            * 1_000_000 <= now - started_at < (tracking.listening_ms(now) + 1) * 1_000_000,
        tracking.started_at == Some(started_at) && now < started_at ==> tracking.listening_ms(now)
            == 0,
        Tracking::start(started_at).started_at == Some(started_at),
        Tracking::start(started_at).last_at is None,
        Tracking::start(started_at).first,
{
    law_elapsed(started_at, now);
}

/// The first utterance begins a new line, and so does one without another before it. Any other does
/// if and only if the pause since the last one has more whole milliseconds than the gap.
pub proof fn law_pause_and_gap(tracking: Tracking, gap_ms: u64, last_at: u128, now: u128)
    ensures
        tracking.first || tracking.last_at is None ==> tracking.new_line(gap_ms, now),
        !tracking.first && tracking.last_at == Some(last_at) ==> (tracking.new_line(gap_ms, now)
            <==> now - last_at >= (gap_ms + 1) * 1_000_000),
{
    law_elapsed(last_at, now);
}

/// Without timestamps, what is appended is all of the processed utterance and one space behind it,
/// or the processed utterance alone if it is nothing but white space.
pub proof fn law_written_without_timestamps(processed: Seq<char>, tracking: Tracking, now: u128)
    ensures
        (exists|k: int| 0 <= k < processed.len() && !is_white_space(#[trigger] processed[k]))
            ==> written(processed, None, tracking, now) == processed.push(' '),
        (forall|k: int| 0 <= k < processed.len() ==> is_white_space(#[trigger] processed[k]))
            ==> written(processed, None, tracking, now) == processed,
{
    reveal_strlit(" ");
    assert(processed + " "@ =~= processed.push(' '));
}

/// With timestamps, what is appended ends in all of the processed utterance. In front of it stands,
/// for an utterance that begins a new line, a line feed and the time since listening started, in
/// brackets, and for another a space.
pub proof fn law_written_with_timestamps(
    processed: Seq<char>,
    gap_ms: u64,
    tracking: Tracking,
    now: u128,
    ms: nat,
)
    requires
        tracking.started_at matches Some(started_at) ==> if now >= started_at {
            ms * 1_000_000 <= now - started_at < (ms + 1) * 1_000_000
        } else {
            ms == 0
        },
        tracking.started_at is None ==> ms == 0,
    ensures
        ({
            let out = written(processed, Some(gap_ms), tracking, now);
            let goes_on = !tracking.first && (tracking.last_at matches Some(last_at) && now
                - last_at < (gap_ms + 1) * 1_000_000);
            &&& goes_on ==> out == seq![' '] + processed
            &&& !goes_on ==> out == seq!['\n', '['] + timestamp(ms) + seq![']', ' '] + processed
        }),
{
    reveal_strlit("\n[");
    reveal_strlit("] ");
    reveal_strlit(" ");
    assert("\n["@ =~= seq!['\n', '[']);
    assert("] "@ =~= seq![']', ' ']);
    assert(" "@ =~= seq![' ']);
    match tracking.started_at {
        Some(started_at) => {
            law_elapsed(started_at, now);
        },
        None => {},
    }
    match tracking.last_at {
        Some(last_at) => {
            law_elapsed(last_at, now);
        },
        None => {},
    }
}

/// Whether an utterance is discarded is for its text to say, with timestamps and without: it is if
/// and only if something is left of it without the white space around it, and that is noise.
pub proof fn law_noise_is_always_discarded(
    utterance: Seq<char>,
    gap_ms: Option<u64>,
    tracking: Tracking,
    now: u128,
)
    ensures
        ({
            let text = trimmed(utterance, Edges::White);
            outcome(utterance, gap_ms, tracking, now) is Discarded <==> text.len() > 0 && discarded(
                text,
            )
        }),
{
}

/// What becomes of an utterance: nothing if there is no text in it, or none is left once it is
/// processed; noise is discarded; all else is appended. The text that is named is all that stands
/// between the white space around it.
pub proof fn law_what_becomes_of_an_utterance(
    before: Seq<char>,
    text: Seq<char>,
    behind: Seq<char>,
    gap_ms: Option<u64>,
    tracking: Tracking,
    now: u128,
)
    requires
        blank(before),
        blank(behind),
        text.len() > 0 ==> !is_white_space(text.first()) && !is_white_space(text.last()),
    ensures
        ({
            let all = outcome(before + text + behind, gap_ms, tracking, now);
            &&& text.len() == 0 ==> all == OutcomeView::Nothing
            &&& text.len() > 0 && discarded(text) ==> all == OutcomeView::Discarded(text)
            &&& text.len() > 0 && !discarded(text) && processed(text).len() == 0 ==> all
                == OutcomeView::Nothing
            &&& text.len() > 0 && !discarded(text) && processed(text).len() > 0 ==> all
                == (OutcomeView::Append {
                text,
                to_write: written(processed(text), gap_ms, tracking, now),
            })
        }),
{
    law_trimmed_leaves_the_core(before, text, behind, Edges::White);
}

/// The time and the timestamps decide only about how an utterance is written, not about whether it
/// is, or which text is named.
pub proof fn law_time_does_not_decide_what_is_written(
    utterance: Seq<char>,
    gap_ms: Option<u64>,
    tracking: Tracking,
    now: u128,
    other_gap_ms: Option<u64>,
    other_tracking: Tracking,
    other_now: u128,
)
    ensures
        ({
            let one = outcome(utterance, gap_ms, tracking, now);
            let other = outcome(utterance, other_gap_ms, other_tracking, other_now);
            &&& one is Nothing <==> other is Nothing
            &&& one is Discarded <==> other is Discarded
            &&& one is Discarded ==> one == other
            &&& one is Append <==> other is Append
            &&& one is Append ==> one->Append_text == other->Append_text
        }),
{
}

/// Without timestamps, an utterance that is appended is appended whole: all that it was processed
/// to, and one space behind it unless it is nothing but white space.
pub proof fn law_appended_without_timestamps(utterance: Seq<char>, tracking: Tracking, now: u128)
    ensures
        outcome(utterance, None, tracking, now) matches OutcomeView::Append { text, to_write } ==> {
            let done = processed(text);
            &&& text == trimmed(utterance, Edges::White)
            &&& (exists|k: int| 0 <= k < done.len() && !is_white_space(#[trigger] done[k]))
                ==> to_write == done.push(' ')
            &&& (forall|k: int| 0 <= k < done.len() ==> is_white_space(#[trigger] done[k]))
                ==> to_write == done
        },
{
    law_written_without_timestamps(
        processed(trimmed(utterance, Edges::White)),
        tracking,
        now,
    );
}

/// A phrase to discard is discarded in any case, with any white space and marks around it, with
/// timestamps and without, whenever it comes.
#[verifier::spinoff_prover]
#[verifier::rlimit(60)]
pub proof fn law_phrases_are_filtered(
    before: Seq<char>,
    spoken: Seq<char>,
    behind: Seq<char>,
    phrase: Seq<char>,
    gap_ms: Option<u64>,
    tracking: Tracking,
    now: u128,
)
    requires
        phrase == "thank you"@ || phrase == "thanks"@ || phrase == "you"@,
        says(spoken, phrase),
        forall|i: int|
            0 <= i < before.len() ==> Edges::WhiteAndMarks.has(#[trigger] before[i]),
        forall|i: int|
            0 <= i < behind.len() ==> Edges::WhiteAndMarks.has(#[trigger] behind[i]),
    ensures
        outcome(before + spoken + behind, gap_ms, tracking, now) is Discarded,
        tracking_after(before + spoken + behind, gap_ms, tracking, now) == tracking,
{
    reveal_strlit("thank you");
    reveal_strlit("thanks");
    reveal_strlit("you");
    let listed = discard_phrases();
    assert(listed[0] == "thank you"@ && listed[1] == "thanks"@ && listed[2] == "you"@);
    assert(listed.contains(phrase));
    let n = phrase.len() as int;
    assert(ascii_lowered(spoken).len() == spoken.len());
    assert(ascii_lowered(spoken)[0] == phrase[0]);
    assert(ascii_lowered(spoken)[n - 1] == phrase[n - 1]);
    let (i, j) = lemma_trimmed_around(before, spoken, behind, Edges::White);
    let (front, back) = (before.skip(i), behind.take(j));
    assert forall|k: int| 0 <= k < front.len() implies Edges::WhiteAndMarks.has(
        #[trigger] front[k],
    ) by {
        assert(front[k] == before[k + i]);
    }
    assert forall|k: int| 0 <= k < back.len() implies Edges::WhiteAndMarks.has(
        #[trigger] back[k],
    ) by {
        assert(back[k] == behind[k]);
    }
    law_noise_in_any_case(front, spoken, back, phrase);
}

/// A command within an utterance is written as a line end with the text around it: all that was
/// said before it, and what was said behind it as it becomes alone, and one space behind it all.
#[verifier::spinoff_prover]
#[verifier::rlimit(60)]
pub proof fn law_text_around_a_command_is_written(
    before: Seq<char>,
    first: Seq<char>,
    second: Seq<char>,
    behind: Seq<char>,
    tracking: Tracking,
    now: u128,
)
    requires
        says(first, "command"@),
        says(second, "enter"@),
        forall|i: int|
            0 <= i <= lowercase(before).len() - 7 ==> #[trigger] lowercase(before).subrange(
                i,
                i + 7,
            ) != "command"@,
        normalized(before).len() > 0,
        before.len() > 0,
        !is_white_space(before[0]),
        behind.len() > 0,
        behind[0] != ',',
        behind[0] != '.',
        !is_white_space(behind[0]),
        !is_white_space(behind.last()),
        normalized(behind) != "command enter"@,
    ensures
        ({
            let text = before + " "@ + first + " "@ + second + " "@ + behind;
            outcome(text, None, tracking, now) == (OutcomeView::Append {
                text,
                to_write: before + " \r\n"@ + processed(behind) + " "@,
            })
        }),
{
    let text = before + " "@ + first + " "@ + second + " "@ + behind;
    let done = before + " \r\n"@ + processed(behind);
    let none = Seq::<char>::empty();
    law_text_around_a_command(before, first, second, behind);
    assert(text =~= (before + " "@) + first + (" "@ + second + " "@ + behind));
    law_command_is_not_noise(before + " "@, first, " "@ + second + " "@ + behind);
    assert(text.first() == before[0]);
    assert(text.last() == behind.last());
    assert(none + text + none =~= text);
    law_what_becomes_of_an_utterance(none, text, none, None, tracking, now);
    assert(done[0] == before[0]);
    law_written_without_timestamps(done, tracking, now);
    assert(done.push(' ') =~= done + " "@) by {
        reveal_strlit(" ");
    }
}

/// With timestamps, an utterance that is appended is the last one from then on, and no longer the
/// first; when listening started stays.
pub proof fn law_appended_is_tracked(
    utterance: Seq<char>,
    gap_ms: u64,
    tracking: Tracking,
    now: u128,
)
    requires
        outcome(utterance, Some(gap_ms), tracking, now) is Append,
    ensures
        ({
            let after = tracking_after(utterance, Some(gap_ms), tracking, now);
            &&& after.started_at == tracking.started_at
            &&& after.last_at == Some(now)
            &&& !after.first
        }),
{
}

/// Each line feed gets a return sign in front of it, and everything else stays.
pub proof fn law_feeds_are_marked(a: Seq<char>, b: Seq<char>, c: char)
    ensures
        feeds_marked(Seq::empty()) == Seq::<char>::empty(),
        feeds_marked(seq!['\n']) == seq!['\u{23ce}', '\n'],
        c != '\n' ==> feeds_marked(seq![c]) == seq![c],
        feeds_marked(a + b) == feeds_marked(a) + feeds_marked(b),
    decreases b.len(),
{
    let none = Seq::<char>::empty();
    assert(seq!['\n'].drop_last() =~= none);
    assert(seq![c].drop_last() =~= none);
    assert(feeds_marked(none).push('\u{23ce}').push('\n') =~= seq!['\u{23ce}', '\n']);
    assert(feeds_marked(none).push(c) =~= seq![c]);
    if b.len() == 0 {
        assert(a + b =~= a);
        assert(feeds_marked(a) + feeds_marked(b) =~= feeds_marked(a));
    } else {
        law_feeds_are_marked(a, b.drop_last(), c);
        assert((a + b).drop_last() =~= a + b.drop_last());
        assert(feeds_marked(a + b) =~= feeds_marked(a) + feeds_marked(b));
    }
}

/// A carriage return that a line feed follows becomes a return sign, and everything else stays.
pub proof fn law_returns_are_marked(a: Seq<char>, b: Seq<char>, c: char)
    requires
        !(a.len() > 0 && b.len() > 0 && a.last() == '\r' && b[0] == '\n'),
    ensures
        returns_marked(Seq::empty()) == Seq::<char>::empty(),
        returns_marked(seq![c]) == seq![c],
        returns_marked(seq!['\r', '\n']) == seq!['\u{23ce}', '\n'],
        returns_marked(a + b) == returns_marked(a) + returns_marked(b),
    decreases a.len(),
{
    let none = Seq::<char>::empty();
    let all = a + b;
    assert(returns_marked(none) == none);
    assert(seq![c].drop_first() =~= none);
    assert(seq![c] + none =~= seq![c]);
    assert(seq!['\r', '\n'].skip(2) =~= none);
    assert(seq!['\u{23ce}', '\n'] + none =~= seq!['\u{23ce}', '\n']);
    if a.len() == 0 {
        assert(all =~= b);
        assert(returns_marked(a) + returns_marked(b) =~= returns_marked(b));
    } else if a.len() >= 2 && a[0] == '\r' && a[1] == '\n' {
        let rest = a.skip(2);
        assert(rest.len() > 0 ==> rest.last() == a.last());
        law_returns_are_marked(rest, b, c);
        assert(all.skip(2) =~= rest + b);
        assert(returns_marked(all) =~= returns_marked(a) + returns_marked(b));
    } else {
        let rest = a.drop_first();
        assert(rest.len() > 0 ==> rest.last() == a.last());
        law_returns_are_marked(rest, b, c);
        assert(all.drop_first() =~= rest + b);
        assert(all[0] == a[0]);
        assert(all.len() >= 2 && a.len() >= 2 ==> all[1] == a[1]);
        assert(all.len() >= 2 && a.len() == 1 ==> all[1] == b[0] && a.last() == a[0]);
        assert(returns_marked(all) =~= returns_marked(a) + returns_marked(b));
    }
}

/// What is shown of a text is all of it, with its line ends marked, between the white space around
/// it.
pub proof fn law_what_is_shown(
    to_write: Seq<char>,
    before: Seq<char>,
    core: Seq<char>,
    behind: Seq<char>,
)
    requires
        feeds_marked(returns_marked(to_write)) == before + core + behind,
        blank(before),
        blank(behind),
        core.len() > 0 ==> !is_white_space(core.first()) && !is_white_space(core.last()),
    ensures
        shown(to_write) == core,
{
    law_trimmed_leaves_the_core(before, core, behind, Edges::White);
}

/// What becomes of an utterance is taken as it is.
pub proof fn law_outcome_views(text: String, to_write: String)
    ensures
        Outcome::Nothing@ == OutcomeView::Nothing,
        Outcome::Discarded(text)@ == OutcomeView::Discarded(text@),
        (Outcome::Append { text, to_write })@ == (OutcomeView::Append {
            text: text@,
            to_write: to_write@,
        }),
{
}

} // verus!
