//! The course of the program, step by step: the hotkey turns listening on and off, and while it is
//! on, utterances are fetched and appended.

use vstd::prelude::*;

use crate::ipc::{transcription_views, Transcription};
use crate::utterance::{
    handle_utterance, outcome, tracking_after, Outcome, OutcomeView, Tracking,
};

verus! {

/// How long, in milliseconds, to wait between two rounds.
pub const POLLING_INTERVAL_MS: u64 = 100;

/// How long, in milliseconds, to wait between the start of listening and the first fetch.
pub const LISTENING_STATE_DELAY_MS: u64 = 200;

// ---------------------------------------------------------------------------
// States, actions and events
// ---------------------------------------------------------------------------

/// Where in a round the program is.
pub enum Phase {
    /// Whether to quit is to be found out.
    CheckingQuit,
    /// Whether the hotkey was pressed is to be found out.
    CheckingToggle,
    /// Listening has been turned off.
    Stopped,
    /// Whether the server runs is to be found out.
    CheckingServer,
    /// The server does not run.
    NoServer,
    /// Listening has been turned on; the read marker is to be set.
    Starting,
    /// Listening has just been turned on.
    Settling,
    /// Utterances are to be fetched.
    Fetching,
    /// The time is needed for the next utterance.
    ReadingClock,
    /// This utterance came when listening was off.
    Cancelled(String),
    /// This utterance is noise.
    Discarded(String),
    /// `to_write` is to be appended for `text`.
    Appending { text: String, to_write: String },
    /// The round is over.
    Resting,
    /// The program is over.
    Ended,
}

/// Where in a round the program is, with texts as sequences of characters.
pub enum PhaseView {
    CheckingQuit,
    CheckingToggle,
    Stopped,
    CheckingServer,
    NoServer,
    Starting,
    Settling,
    Fetching,
    ReadingClock,
    Cancelled(Seq<char>),
    Discarded(Seq<char>),
    Appending { text: Seq<char>, to_write: Seq<char> },
    Resting,
    Ended,
}

impl View for Phase {
    type V = PhaseView;

    open spec fn view(&self) -> PhaseView {
        match self {
            Phase::CheckingQuit => PhaseView::CheckingQuit,
            Phase::CheckingToggle => PhaseView::CheckingToggle,
            Phase::Stopped => PhaseView::Stopped,
            Phase::CheckingServer => PhaseView::CheckingServer,
            Phase::NoServer => PhaseView::NoServer,
            Phase::Starting => PhaseView::Starting,
            Phase::Settling => PhaseView::Settling,
            Phase::Fetching => PhaseView::Fetching,
            Phase::ReadingClock => PhaseView::ReadingClock,
            Phase::Cancelled(text) => PhaseView::Cancelled(text@),
            Phase::Discarded(text) => PhaseView::Discarded(text@),
            Phase::Appending { text, to_write } => PhaseView::Appending {
                text: text@,
                to_write: to_write@,
            },
            Phase::Resting => PhaseView::Resting,
            Phase::Ended => PhaseView::Ended,
        }
    }
}

/// What is to be done next.
pub enum Action {
    /// Find out whether to quit. The answer is a flag.
    CheckQuit,
    /// Find out whether the hotkey was pressed. The answer is a flag.
    CheckToggle,
    /// Report that listening has stopped.
    ReportStopped,
    /// Find out whether the server runs. The answer is a flag.
    CheckServer,
    /// Report that the server does not run.
    ReportNoServer,
    /// Report that listening has started and set the read marker. The answer is the time then.
    Start,
    /// Wait this many milliseconds.
    Sleep(u64),
    /// Fetch the utterances since the read marker. The answer is the list of them.
    Fetch,
    /// Read the clock. The answer is the time.
    ReadClock,
    /// Report an utterance that came when listening was off.
    ReportCancelled(String),
    /// Report an utterance that is noise.
    ReportDiscarded(String),
    /// Append `to_write` to the file for `text`.
    Append { text: String, to_write: String },
    /// End the program.
    End,
}

/// What is to be done next, with texts as sequences of characters.
pub enum ActionView {
    CheckQuit,
    CheckToggle,
    ReportStopped,
    CheckServer,
    ReportNoServer,
    Start,
    Sleep(u64),
    Fetch,
    ReadClock,
    ReportCancelled(Seq<char>),
    ReportDiscarded(Seq<char>),
    Append { text: Seq<char>, to_write: Seq<char> },
    End,
}

impl View for Action {
    type V = ActionView;

    open spec fn view(&self) -> ActionView {
        match self {
            Action::CheckQuit => ActionView::CheckQuit,
            Action::CheckToggle => ActionView::CheckToggle,
            Action::ReportStopped => ActionView::ReportStopped,
            Action::CheckServer => ActionView::CheckServer,
            Action::ReportNoServer => ActionView::ReportNoServer,
            Action::Start => ActionView::Start,
            Action::Sleep(ms) => ActionView::Sleep(*ms),
            Action::Fetch => ActionView::Fetch,
            Action::ReadClock => ActionView::ReadClock,
            Action::ReportCancelled(text) => ActionView::ReportCancelled(text@),
            Action::ReportDiscarded(text) => ActionView::ReportDiscarded(text@),
            Action::Append { text, to_write } => ActionView::Append {
                text: text@,
                to_write: to_write@,
            },
            Action::End => ActionView::End,
        }
    }
}

/// How it went.
pub enum Event {
    /// It is done.
    Done,
    /// The answer is yes or no.
    Flag(bool),
    /// The time, in nanoseconds.
    Clock(u128),
    /// The utterances.
    Items(Vec<Transcription>),
}

/// How it went, with texts as sequences of characters.
pub enum EventView {
    Done,
    Flag(bool),
    Clock(u128),
    Items(Seq<Seq<char>>),
}

impl View for Event {
    type V = EventView;

    open spec fn view(&self) -> EventView {
        match self {
            Event::Done => EventView::Done,
            Event::Flag(yes) => EventView::Flag(*yes),
            Event::Clock(now) => EventView::Clock(*now),
            Event::Items(items) => EventView::Items(transcription_views(items@)),
        }
    }
}

/// The state of the program.
pub struct Session {
    /// The gap that begins a new timestamped line, if there are timestamps.
    gap_ms: Option<u64>,
    /// Whether listening is on.
    listening: bool,
    /// What timestamps depend on.
    tracking: Tracking,
    /// The utterances that were fetched.
    items: Vec<Transcription>,
    /// How many of them have been handled.
    handled: usize,
    /// Where in a round the program is.
    phase: Phase,
}

/// The state of the program, with the utterances that are still to be handled.
pub struct SessionView {
    pub gap_ms: Option<u64>,
    pub listening: bool,
    pub tracking: Tracking,
    pub pending: Seq<Seq<char>>,
    pub phase: PhaseView,
}

impl View for Session {
    type V = SessionView;

    closed spec fn view(&self) -> SessionView {
        SessionView {
            gap_ms: self.gap_ms,
            listening: self.listening,
            tracking: self.tracking,
            pending: transcription_views(self.items@).skip(self.handled as int),
            phase: self.phase@,
        }
    }
}

impl SessionView {
    /// The state at the start: listening is off.
    pub open spec fn initial(gap_ms: Option<u64>) -> SessionView {
        SessionView {
            gap_ms,
            listening: false,
            tracking: Tracking { started_at: None, last_at: None, first: true },
            pending: Seq::empty(),
            phase: PhaseView::CheckingQuit,
        }
    }

    /// What is to be done next.
    pub open spec fn action(self) -> ActionView {
        match self.phase {
            PhaseView::CheckingQuit => ActionView::CheckQuit,
            PhaseView::CheckingToggle => ActionView::CheckToggle,
            PhaseView::Stopped => ActionView::ReportStopped,
            PhaseView::CheckingServer => ActionView::CheckServer,
            PhaseView::NoServer => ActionView::ReportNoServer,
            PhaseView::Starting => ActionView::Start,
            PhaseView::Settling => ActionView::Sleep(LISTENING_STATE_DELAY_MS),
            PhaseView::Fetching => ActionView::Fetch,
            PhaseView::ReadingClock => ActionView::ReadClock,
            PhaseView::Cancelled(text) => ActionView::ReportCancelled(text),
            PhaseView::Discarded(text) => ActionView::ReportDiscarded(text),
            PhaseView::Appending { text, to_write } => ActionView::Append { text, to_write },
            PhaseView::Resting => ActionView::Sleep(POLLING_INTERVAL_MS),
            PhaseView::Ended => ActionView::End,
        }
    }

    /// The state with another phase.
    pub open spec fn at(self, phase: PhaseView) -> SessionView {
        SessionView { phase, ..self }
    }

    /// Behind the hotkey: utterances are fetched while listening is on.
    pub open spec fn fetch_or_rest(self) -> SessionView {
        if self.listening {
            self.at(PhaseView::Fetching)
        } else {
            self.at(PhaseView::Resting)
        }
    }

    /// On to the next utterance, if there is one.
    pub open spec fn next_item(self) -> SessionView {
        if self.pending.len() > 0 {
            self.at(PhaseView::ReadingClock)
        } else {
            self.at(PhaseView::Resting)
        }
    }

    /// The first pending utterance is handled.
    pub open spec fn handle(self, now: u128) -> SessionView {
        if self.pending.len() == 0 {
            self.at(PhaseView::Resting)
        } else if !self.listening {
            SessionView {
                pending: Seq::empty(),
                phase: PhaseView::Cancelled(self.pending[0]),
                ..self
            }
        } else {
            let utterance = self.pending[0];
            let rest = SessionView {
                pending: self.pending.drop_first(),
                tracking: tracking_after(utterance, self.gap_ms, self.tracking, now),
                ..self
            };
            match outcome(utterance, self.gap_ms, self.tracking, now) {
                OutcomeView::Nothing => rest.next_item(),
                OutcomeView::Discarded(text) => rest.at(PhaseView::Discarded(text)),
                OutcomeView::Append { text, to_write } => rest.at(
                    PhaseView::Appending { text, to_write },
                ),
            }
        }
    }

    /// The state after `event`. An event that does not answer what was to be done changes nothing.
    pub open spec fn next(self, event: EventView) -> SessionView {
        match (self.phase, event) {
            (PhaseView::CheckingQuit, EventView::Flag(quit)) => if quit {
                self.at(PhaseView::Ended)
            } else {
                self.at(PhaseView::CheckingToggle)
            },
            (PhaseView::CheckingToggle, EventView::Flag(pressed)) => if !pressed {
                self.fetch_or_rest()
            } else if self.listening {
                SessionView { listening: false, phase: PhaseView::Stopped, ..self }
            } else {
                self.at(PhaseView::CheckingServer)
            },
            (PhaseView::Stopped, EventView::Done) => self.fetch_or_rest(),
            (PhaseView::CheckingServer, EventView::Flag(running)) => if running {
                SessionView { listening: true, phase: PhaseView::Starting, ..self }
            } else {
                self.at(PhaseView::NoServer)
            },
            (PhaseView::NoServer, EventView::Done) => self.fetch_or_rest(),
            (PhaseView::Starting, EventView::Clock(now)) => SessionView {
                tracking: Tracking::start(now),
                phase: PhaseView::Settling,
                ..self
            },
            (PhaseView::Settling, EventView::Done) => self.fetch_or_rest(),
            (PhaseView::Fetching, EventView::Items(items)) => SessionView {
                pending: items,
                ..self
            }.next_item(),
            (PhaseView::ReadingClock, EventView::Clock(now)) => self.handle(now),
            (PhaseView::Cancelled(_), EventView::Done) => self.next_item(),
            (PhaseView::Discarded(_), EventView::Done) => self.next_item(),
            (PhaseView::Appending { .. }, EventView::Done) => self.next_item(),
            (PhaseView::Resting, EventView::Done) => self.at(PhaseView::CheckingQuit),
            _ => self,
        }
    }
}

// ---------------------------------------------------------------------------
// The program
// ---------------------------------------------------------------------------

impl Session {
    /// No more utterances have been handled than there are.
    #[verifier::type_invariant]
    spec fn within(self) -> bool {
        self.handled <= self.items.len()
    }

    /// The state at the start.
    pub fn new(gap_ms: Option<u64>) -> (out: Session)
        ensures
            out@ == SessionView::initial(gap_ms),
    {
        let out = Session {
            gap_ms,
            listening: false,
            tracking: Tracking { started_at: None, last_at: None, first: true },
            items: Vec::new(),
            handled: 0,
            phase: Phase::CheckingQuit,
        };
        assert(out@.pending =~= Seq::<Seq<char>>::empty());
        out
    }

    /// What is to be done next.
    pub fn action(&self) -> (out: Action)
        ensures
            out@ == self@.action(),
    {
        match &self.phase {
            Phase::CheckingQuit => Action::CheckQuit,
            Phase::CheckingToggle => Action::CheckToggle,
            Phase::Stopped => Action::ReportStopped,
            Phase::CheckingServer => Action::CheckServer,
            Phase::NoServer => Action::ReportNoServer,
            Phase::Starting => Action::Start,
            Phase::Settling => Action::Sleep(LISTENING_STATE_DELAY_MS),
            Phase::Fetching => Action::Fetch,
            Phase::ReadingClock => Action::ReadClock,
            Phase::Cancelled(text) => Action::ReportCancelled(text.clone()),
            Phase::Discarded(text) => Action::ReportDiscarded(text.clone()),
            Phase::Appending { text, to_write } => Action::Append {
                text: text.clone(),
                to_write: to_write.clone(),
            },
            Phase::Resting => Action::Sleep(POLLING_INTERVAL_MS),
            Phase::Ended => Action::End,
        }
    }

    /// The state with another phase.
    fn at(self, phase: Phase) -> (out: Session)
        ensures
            out@ == self@.at(phase@),
    {
        proof {
            use_type_invariant(&self);
        }
        Session {
            gap_ms: self.gap_ms,
            listening: self.listening,
            tracking: self.tracking,
            items: self.items,
            handled: self.handled,
            phase,
        }
    }

    /// Behind the hotkey: utterances are fetched while listening is on.
    fn fetch_or_rest(self) -> (out: Session)
        ensures
            out@ == self@.fetch_or_rest(),
    {
        if self.listening {
            self.at(Phase::Fetching)
        } else {
            self.at(Phase::Resting)
        }
    }

    /// On to the next utterance, if there is one.
    fn next_item(self) -> (out: Session)
        ensures
            out@ == self@.next_item(),
    {
        proof {
            use_type_invariant(&self);
        }
        if self.handled < self.items.len() {
            self.at(Phase::ReadingClock)
        } else {
            self.at(Phase::Resting)
        }
    }

    /// Handles the first pending utterance.
    fn handle(self, now: u128) -> (out: Session)
        ensures
            out@ == self@.handle(now),
    {
        proof {
            use_type_invariant(&self);
        }
        let ghost pending = self@.pending;
        if self.handled == self.items.len() {
            return self.at(Phase::Resting);
        }
        let text = self.items[self.handled].text.as_str();
        assert(pending[0] == text@);
        if !self.listening {
            let cancelled = text.to_owned();
            let out = Session {
                gap_ms: self.gap_ms,
                listening: self.listening,
                tracking: self.tracking,
                items: Vec::new(),
                handled: 0,
                phase: Phase::Cancelled(cancelled),
            };
            assert(out@.pending =~= Seq::<Seq<char>>::empty());
            return out;
        }
        let mut tracking = self.tracking;
        let result = handle_utterance(text, self.gap_ms, &mut tracking, now);
        let phase = match result {
            Outcome::Nothing => if self.handled + 1 < self.items.len() {
                Phase::ReadingClock
            } else {
                Phase::Resting
            },
            Outcome::Discarded(text) => Phase::Discarded(text),
            Outcome::Append { text, to_write } => Phase::Appending { text, to_write },
        };
        let out = Session {
            gap_ms: self.gap_ms,
            listening: self.listening,
            tracking,
            items: self.items,
            handled: self.handled + 1,
            phase,
        };
        assert(out@.pending =~= pending.drop_first());
        out
    }

    /// The state after `event`.
    pub fn advance(self, event: Event) -> (out: Session)
        ensures
            out@ == self@.next(event@),
    {
        proof {
            use_type_invariant(&self);
        }
        match event {
            Event::Done => match self.phase {
                Phase::Stopped => self.fetch_or_rest(),
                Phase::NoServer => self.fetch_or_rest(),
                Phase::Settling => self.fetch_or_rest(),
                Phase::Cancelled(_) => self.next_item(),
                Phase::Discarded(_) => self.next_item(),
                Phase::Appending { .. } => self.next_item(),
                Phase::Resting => self.at(Phase::CheckingQuit),
                _ => self,
            },
            Event::Flag(yes) => match self.phase {
                Phase::CheckingQuit => if yes {
                    self.at(Phase::Ended)
                } else {
                    self.at(Phase::CheckingToggle)
                },
                Phase::CheckingToggle => if !yes {
                    self.fetch_or_rest()
                } else if self.listening {
                    Session {
                        gap_ms: self.gap_ms,
                        listening: false,
                        tracking: self.tracking,
                        items: self.items,
                        handled: self.handled,
                        phase: Phase::Stopped,
                    }
                } else {
                    self.at(Phase::CheckingServer)
                },
                Phase::CheckingServer => if yes {
                    Session {
                        gap_ms: self.gap_ms,
                        listening: true,
                        tracking: self.tracking,
                        items: self.items,
                        handled: self.handled,
                        phase: Phase::Starting,
                    }
                } else {
                    self.at(Phase::NoServer)
                },
                _ => self,
            },
            Event::Clock(now) => match self.phase {
                Phase::Starting => Session {
                    gap_ms: self.gap_ms,
                    listening: self.listening,
                    tracking: Tracking { started_at: Some(now), last_at: None, first: true },
                    items: self.items,
                    handled: self.handled,
                    phase: Phase::Settling,
                },
                Phase::ReadingClock => self.handle(now),
                _ => self,
            },
            Event::Items(items) => match self.phase {
                Phase::Fetching => {
                    let fetched = Session {
                        gap_ms: self.gap_ms,
                        listening: self.listening,
                        tracking: self.tracking,
                        items,
                        handled: 0,
                        phase: Phase::Fetching,
                    };
                    assert(fetched@.pending =~= transcription_views(items@));
                    fetched.next_item()
                },
                _ => self,
            },
        }
    }
}

// ---------------------------------------------------------------------------
// Laws
// ---------------------------------------------------------------------------

impl SessionView {
    /// What holds of every state that the program comes to.
    pub open spec fn inv(self) -> bool {
        // Listening is on wherever utterances are asked for or handled, and off where it has been
        // turned off or cannot be turned on.
        &&& (self.phase is Starting || self.phase is Settling || self.phase is Fetching
            || self.phase is ReadingClock || self.phase is Discarded || self.phase is Appending)
            ==> self.listening
        &&& (self.phase is Stopped || self.phase is CheckingServer || self.phase is NoServer)
            ==> !self.listening
        // Utterances are pending only while a batch is handled.
        &&& self.phase is ReadingClock ==> self.pending.len() > 0
        &&& !(self.phase is ReadingClock || self.phase is Discarded || self.phase is Appending)
            ==> self.pending.len() == 0
        // Once the read marker is set, it is known when listening started.
        &&& self.listening && !(self.phase is Starting) ==> self.tracking.started_at is Some
        // No utterance is cancelled.
        &&& !(self.phase is Cancelled)
    }

    /// The state after `events`, one after the other.
    pub open spec fn run(self, events: Seq<EventView>) -> SessionView
        decreases events.len(),
    {
        if events.len() == 0 {
            self
        } else {
            self.next(events[0]).run(events.drop_first())
        }
    }

    /// The state once the pending utterance, and what follows from it, is dealt with.
    pub open spec fn item_dealt_with(self, now: u128) -> SessionView {
        let after = self.next(EventView::Clock(now));
        if after.phase is Discarded || after.phase is Appending {
            after.next(EventView::Done)
        } else {
            after
        }
    }

    /// What is appended for the pending utterance.
    pub open spec fn appended_for_item(self, now: u128) -> Seq<char> {
        match self.next(EventView::Clock(now)).action() {
            ActionView::Append { to_write, .. } => to_write,
            _ => Seq::empty(),
        }
    }

    /// What is appended while the pending utterances are handled at `times`.
    pub open spec fn appended(self, times: Seq<u128>) -> Seq<char>
        decreases times.len(),
    {
        if times.len() == 0 {
            Seq::empty()
        } else {
            self.appended_for_item(times[0]) + self.item_dealt_with(times[0]).appended(
                times.drop_first(),
            )
        }
    }

    /// The state once the pending utterances are handled at `times`.
    pub open spec fn batch_dealt_with(self, times: Seq<u128>) -> SessionView
        decreases times.len(),
    {
        if times.len() == 0 {
            self
        } else {
            self.item_dealt_with(times[0]).batch_dealt_with(times.drop_first())
        }
    }
}

/// What utterances that are handled at `times` become, one behind the other.
pub open spec fn transcript(
    utterances: Seq<Seq<char>>,
    gap_ms: Option<u64>,
    tracking: Tracking,
    times: Seq<u128>,
) -> Seq<char>
    decreases utterances.len(),
{
    if utterances.len() == 0 {
        Seq::empty()
    } else {
        let own = match outcome(utterances[0], gap_ms, tracking, times[0]) {
            OutcomeView::Append { to_write, .. } => to_write,
            _ => Seq::empty(),
        };
        own + transcript(
            utterances.drop_first(),
            gap_ms,
            tracking_after(utterances[0], gap_ms, tracking, times[0]),
            times.drop_first(),
        )
    }
}

/// Each step keeps what holds of every state.
pub proof fn law_each_step_keeps_inv(state: SessionView, event: EventView)
    requires
        state.inv(),
    ensures
        state.next(event).inv(),
{
}

/// What holds of every state holds at the start and after any events.
pub proof fn law_every_state_keeps_inv(gap_ms: Option<u64>, events: Seq<EventView>)
    ensures
        SessionView::initial(gap_ms).run(events).inv(),
{
    lemma_run_keeps_inv(SessionView::initial(gap_ms), events);
}

proof fn lemma_run_keeps_inv(state: SessionView, events: Seq<EventView>)
    requires
        state.inv(),
    ensures
        state.run(events).inv(),
    decreases events.len(),
{
    if events.len() > 0 {
        law_each_step_keeps_inv(state, events[0]);
        lemma_run_keeps_inv(state.next(events[0]), events.drop_first());
    }
}

/// Utterances are fetched and appended only while listening is on, whatever happens.
pub proof fn law_nothing_is_taken_down_unless_listening(
    gap_ms: Option<u64>,
    events: Seq<EventView>,
)
    ensures
        ({
            let state = SessionView::initial(gap_ms).run(events);
            !state.listening ==> !(state.action() is Fetch) && !(state.action() is Append)
        }),
{
    law_every_state_keeps_inv(gap_ms, events);
}

/// The hotkey turns listening off, and then nothing is fetched before the next round.
pub proof fn law_hotkey_turns_listening_off(state: SessionView)
    requires
        state.phase is CheckingToggle,
        state.listening,
    ensures
        ({
            let stopped = state.next(EventView::Flag(true));
            let then = stopped.next(EventView::Done);
            &&& stopped.action() == ActionView::ReportStopped
            &&& !stopped.listening
            &&& then.action() == ActionView::Sleep(POLLING_INTERVAL_MS)
            &&& then.next(EventView::Done).action() == ActionView::CheckQuit
        }),
{
}

/// The hotkey turns listening on while the server runs: the read marker is set, the clock starts
/// anew, and only after a delay are utterances fetched.
pub proof fn law_hotkey_turns_listening_on(state: SessionView, now: u128)
    requires
        state.phase is CheckingToggle,
        !state.listening,
    ensures
        ({
            let asked = state.next(EventView::Flag(true));
            let started = asked.next(EventView::Flag(true));
            let settling = started.next(EventView::Clock(now));
            let fetching = settling.next(EventView::Done);
            &&& asked.action() == ActionView::CheckServer
            &&& started.action() == ActionView::Start
            &&& started.listening
            &&& settling.action() == ActionView::Sleep(LISTENING_STATE_DELAY_MS)
            &&& settling.tracking == Tracking::start(now)
            &&& fetching.action() == ActionView::Fetch
            &&& fetching.tracking == Tracking::start(now)
        }),
{
}

/// Without the server the hotkey leaves listening off.
pub proof fn law_no_server_leaves_listening_off(state: SessionView)
    requires
        state.phase is CheckingToggle,
        !state.listening,
    ensures
        ({
            let refused = state.next(EventView::Flag(true)).next(EventView::Flag(false));
            let then = refused.next(EventView::Done);
            &&& refused.action() == ActionView::ReportNoServer
            &&& !refused.listening
            &&& refused.tracking == state.tracking
            &&& then.action() == ActionView::Sleep(POLLING_INTERVAL_MS)
        }),
{
}

/// Only the hotkey changes whether listening is on.
pub proof fn law_only_the_hotkey_toggles(state: SessionView, event: EventView)
    requires
        state.next(event).listening != state.listening,
    ensures
        event == EventView::Flag(true),
        state.phase is CheckingToggle && state.listening || state.phase is CheckingServer
            && !state.listening,
{
}

/// Once the program is to quit it ends, and nothing changes any more.
pub proof fn law_quit_is_final(state: SessionView, event: EventView)
    requires
        state.phase is CheckingQuit,
    ensures
        state.next(EventView::Flag(true)).action() == ActionView::End,
        state.next(EventView::Flag(true)).next(event) == state.next(EventView::Flag(true)),
{
}

/// A batch of utterances is taken down in the order in which they came, each once: what is
/// appended is what they become one behind the other, and then the round is over.
pub proof fn law_batch_is_taken_down_in_order(state: SessionView, times: Seq<u128>)
    requires
        state.inv(),
        state.phase is ReadingClock,
        times.len() == state.pending.len(),
    ensures
        state.appended(times) == transcript(state.pending, state.gap_ms, state.tracking, times),
        state.batch_dealt_with(times).phase is Resting,
        state.batch_dealt_with(times).listening,
    decreases times.len(),
{
    let now = times[0];
    let rest = times.drop_first();
    let then = state.item_dealt_with(now);
    let utterance = state.pending[0];
    assert(then.pending == state.pending.drop_first());
    assert(then.tracking == tracking_after(utterance, state.gap_ms, state.tracking, now));
    assert(state.appended(times) == state.appended_for_item(now) + then.appended(rest));
    assert(state.batch_dealt_with(times) == then.batch_dealt_with(rest));
    if then.pending.len() > 0 {
        law_each_step_keeps_inv(state, EventView::Clock(now));
        law_each_step_keeps_inv(state.next(EventView::Clock(now)), EventView::Done);
        law_batch_is_taken_down_in_order(then, rest);
    } else {
        assert(then.phase is Resting);
    }
    let own = state.appended_for_item(now);
    assert(then.appended(rest) == transcript(then.pending, then.gap_ms, then.tracking, rest));
    assert(transcript(state.pending, state.gap_ms, state.tracking, times) == own + transcript(
        then.pending,
        state.gap_ms,
        then.tracking,
        rest,
    ));
}

/// A batch that was fetched is handled before anything else, and an empty one ends the round.
pub proof fn law_fetched_batch_is_pending(state: SessionView, items: Seq<Seq<char>>)
    requires
        state.inv(),
        state.phase is Fetching,
    ensures
        ({
            let next = state.next(EventView::Items(items));
            &&& next.pending == items
            &&& next.tracking == state.tracking
            &&& items.len() > 0 ==> next.phase is ReadingClock
            &&& items.len() == 0 ==> next.phase is Resting
        }),
{
}

/// Whether two states differ at most in where in a round the program is.
pub open spec fn same_but_for_phase(a: SessionView, b: SessionView) -> bool {
    &&& a.gap_ms == b.gap_ms
    &&& a.listening == b.listening
    &&& a.tracking == b.tracking
    &&& a.pending == b.pending
}

/// At the start listening is off, nothing is pending, and it is seen first whether to quit.
pub proof fn law_start(gap_ms: Option<u64>)
    ensures
        ({
            let state = SessionView::initial(gap_ms);
            &&& state.gap_ms == gap_ms
            &&& !state.listening
            &&& state.pending.len() == 0
            &&& state.tracking.started_at is None
            &&& state.tracking.last_at is None
            &&& state.tracking.first
            &&& state.action() == ActionView::CheckQuit
        }),
{
}

/// At the beginning of a round it is seen whether to quit, and if not whether the hotkey was
/// pressed.
pub proof fn law_quit_is_seen_first(state: SessionView)
    requires
        state.action() == ActionView::CheckQuit,
    ensures
        ({
            let on = state.next(EventView::Flag(false));
            let over = state.next(EventView::Flag(true));
            &&& on.action() == ActionView::CheckToggle
            &&& same_but_for_phase(on, state)
            &&& over.action() == ActionView::End
            &&& same_but_for_phase(over, state)
        }),
{
}

/// Without a press of the hotkey, the server is asked for utterances while listening is on, in
/// every round, and while it is off nothing is done until the next round.
pub proof fn law_server_is_polled_while_listening(state: SessionView)
    requires
        state.action() == ActionView::CheckToggle,
    ensures
        ({
            let next = state.next(EventView::Flag(false));
            &&& same_but_for_phase(next, state)
            &&& state.listening ==> next.action() == ActionView::Fetch
            &&& !state.listening ==> next.action() == ActionView::Sleep(100)
        }),
{
}

/// A press of the hotkey turns listening off where it is on, and asks for the server where it is
/// off.
pub proof fn law_hotkey(state: SessionView)
    requires
        state.action() == ActionView::CheckToggle,
    ensures
        ({
            let next = state.next(EventView::Flag(true));
            &&& state.listening ==> next.action() == ActionView::ReportStopped && !next.listening
            &&& !state.listening ==> next.action() == ActionView::CheckServer && !next.listening
            &&& next.gap_ms == state.gap_ms
            &&& next.tracking == state.tracking
            &&& next.pending == state.pending
        }),
{
}

/// A server that runs turns listening on, and one that does not leaves it as it is.
pub proof fn law_server_decides_about_the_start(state: SessionView)
    requires
        state.action() == ActionView::CheckServer,
    ensures
        ({
            let started = state.next(EventView::Flag(true));
            let refused = state.next(EventView::Flag(false));
            &&& started.action() == ActionView::Start
            &&& started.listening
            &&& started.gap_ms == state.gap_ms
            &&& started.tracking == state.tracking
            &&& started.pending == state.pending
            &&& refused.action() == ActionView::ReportNoServer
            &&& same_but_for_phase(refused, state)
        }),
{
}

/// When listening starts, the clock starts anew: nothing has been written yet. A fifth of a second
/// passes before the first fetch.
pub proof fn law_clock_starts_with_listening(state: SessionView, now: u128)
    requires
        state.action() == ActionView::Start,
    ensures
        ({
            let next = state.next(EventView::Clock(now));
            &&& next.action() == ActionView::Sleep(200)
            &&& next.tracking.started_at == Some(now)
            &&& next.tracking.last_at is None
            &&& next.tracking.first
            &&& next.gap_ms == state.gap_ms
            &&& next.listening == state.listening
            &&& next.pending == state.pending
        }),
{
}

/// Behind what the hotkey led to, the round goes on: utterances are fetched if listening is on.
pub proof fn law_round_goes_on_behind_the_hotkey(state: SessionView)
    requires
        state.action() == ActionView::ReportStopped || state.action() == ActionView::ReportNoServer
            || state.action() == ActionView::Sleep(200),
    ensures
        ({
            let next = state.next(EventView::Done);
            &&& same_but_for_phase(next, state)
            &&& state.listening ==> next.action() == ActionView::Fetch
            &&& !state.listening ==> next.action() == ActionView::Sleep(100)
        }),
{
}

/// All utterances that were fetched are to be handled, whatever their number and in their order.
pub proof fn law_all_that_is_fetched_is_pending(state: SessionView, items: Seq<Seq<char>>)
    requires
        state.action() == ActionView::Fetch,
    ensures
        ({
            let next = state.next(EventView::Items(items));
            &&& next.pending == items
            &&& items.len() > 0 ==> next.action() == ActionView::ReadClock
            &&& items.len() == 0 ==> next.action() == ActionView::Sleep(100)
            &&& next.gap_ms == state.gap_ms
            &&& next.listening == state.listening
            &&& next.tracking == state.tracking
        }),
{
}

/// The first utterance that is pending is handled, and it alone: what becomes of it is what the
/// timestamps, the gap and the time make of it, and those behind it stay pending.
pub proof fn law_one_utterance_is_handled(
    state: SessionView,
    utterance: Seq<char>,
    rest: Seq<Seq<char>>,
    now: u128,
)
    requires
        state.action() == ActionView::ReadClock,
        state.listening,
        state.pending == seq![utterance] + rest,
    ensures
        ({
            let next = state.next(EventView::Clock(now));
            let result = outcome(utterance, state.gap_ms, state.tracking, now);
            &&& next.pending == rest
            &&& next.gap_ms == state.gap_ms
            &&& next.listening
            &&& next.tracking == tracking_after(utterance, state.gap_ms, state.tracking, now)
            &&& result matches OutcomeView::Append { text, to_write } ==> next.action()
                == (ActionView::Append { text, to_write })
            &&& result matches OutcomeView::Discarded(text) ==> next.action()
                == ActionView::ReportDiscarded(text)
            &&& result is Nothing && rest.len() > 0 ==> next.action() == ActionView::ReadClock
            &&& result is Nothing && rest.len() == 0 ==> next.action() == ActionView::Sleep(100)
        }),
{
    assert(state.pending[0] == utterance);
    assert(state.pending.drop_first() =~= rest);
}

/// Were listening off when an utterance is to be handled, it would be reported, and it and those
/// behind it would be dropped.
pub proof fn law_pending_is_dropped_when_off(state: SessionView, now: u128)
    requires
        state.action() == ActionView::ReadClock,
        !state.listening,
        state.pending.len() > 0,
    ensures
        ({
            let next = state.next(EventView::Clock(now));
            &&& next.action() == ActionView::ReportCancelled(state.pending[0])
            &&& next.pending.len() == 0
            &&& next.gap_ms == state.gap_ms
            &&& next.tracking == state.tracking
            &&& !next.listening
        }),
{
}

/// Behind an utterance comes the next one, and behind the last the end of the round.
pub proof fn law_next_utterance_follows(state: SessionView)
    requires
        state.action() is Append || state.action() is ReportDiscarded
            || state.action() is ReportCancelled,
    ensures
        ({
            let next = state.next(EventView::Done);
            &&& same_but_for_phase(next, state)
            &&& state.pending.len() > 0 ==> next.action() == ActionView::ReadClock
            &&& state.pending.len() == 0 ==> next.action() == ActionView::Sleep(100)
        }),
{
}

/// Behind a round comes the next one, a tenth of a second later.
pub proof fn law_next_round_follows(state: SessionView)
    requires
        state.action() == ActionView::Sleep(100),
    ensures
        state.next(EventView::Done).action() == ActionView::CheckQuit,
        same_but_for_phase(state.next(EventView::Done), state),
{
}

/// Whether an event is an answer to what was to be done.
pub open spec fn answers(action: ActionView, event: EventView) -> bool {
    match action {
        ActionView::CheckQuit => event is Flag,
        ActionView::CheckToggle => event is Flag,
        ActionView::CheckServer => event is Flag,
        ActionView::Start => event is Clock,
        ActionView::ReadClock => event is Clock,
        ActionView::Fetch => event is Items,
        ActionView::End => false,
        _ => event is Done,
    }
}

/// An event that is no answer changes nothing.
pub proof fn law_only_answers_count(state: SessionView, event: EventView)
    requires
        !answers(state.action(), event),
    ensures
        state.next(event) == state,
{
}

/// A round in which nothing is said leads back to where it began: while listening is on the server
/// was asked, and it will be asked in the next round, and in each one after it.
pub proof fn law_quiet_round(state: SessionView)
    requires
        state.action() == ActionView::CheckQuit,
        state.pending.len() == 0,
    ensures
        ({
            let looked = state.next(EventView::Flag(false)).next(EventView::Flag(false));
            let asked = looked.next(EventView::Items(Seq::empty()));
            &&& state.listening ==> looked.action() == ActionView::Fetch && asked.action()
                == ActionView::Sleep(100) && asked.next(EventView::Done) == state
            &&& !state.listening ==> looked.action() == ActionView::Sleep(100) && looked.next(
                EventView::Done,
            ) == state
        }),
{
    assert(state.pending =~= Seq::empty());
}

/// What is to be done, and how it went, is taken as it is: each utterance with all its text, in the
/// order in which they came.
pub proof fn law_session_views(
    text: String,
    to_write: String,
    ms: u64,
    yes: bool,
    now: u128,
    items: Vec<Transcription>,
)
    ensures
        Action::CheckQuit@ == ActionView::CheckQuit,
        Action::CheckToggle@ == ActionView::CheckToggle,
        Action::ReportStopped@ == ActionView::ReportStopped,
        Action::CheckServer@ == ActionView::CheckServer,
        Action::ReportNoServer@ == ActionView::ReportNoServer,
        Action::Start@ == ActionView::Start,
        Action::Sleep(ms)@ == ActionView::Sleep(ms),
        Action::Fetch@ == ActionView::Fetch,
        Action::ReadClock@ == ActionView::ReadClock,
        Action::ReportCancelled(text)@ == ActionView::ReportCancelled(text@),
        Action::ReportDiscarded(text)@ == ActionView::ReportDiscarded(text@),
        (Action::Append { text, to_write })@ == (ActionView::Append {
            text: text@,
            to_write: to_write@,
        }),
        Action::End@ == ActionView::End,
        Event::Done@ == EventView::Done,
        Event::Flag(yes)@ == EventView::Flag(yes),
        Event::Clock(now)@ == EventView::Clock(now),
        Event::Items(items)@ matches EventView::Items(texts) && texts.len() == items.len()
            && forall|i: int| 0 <= i < items.len() ==> #[trigger] texts[i] == items@[i].text@,
{
}

} // verus!
