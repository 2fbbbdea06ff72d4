//! The global hotkey, Ctrl+Shift+Space: which keys to grab, and what a key press means.

use vstd::prelude::*;

verus! {

/// The key code of the space bar.
pub const SPACE_KEYCODE: u8 = 65;

/// How long, in milliseconds, to wait before looking for a key press again.
pub const HOTKEY_POLL_MS: u64 = 10;

// ---------------------------------------------------------------------------
// Modifiers
// ---------------------------------------------------------------------------

/// The masks of the modifier keys.
pub struct Modifiers {
    pub control: u16,
    pub shift: u16,
    pub caps_lock: u16,
    pub num_lock: u16,
}

impl Modifiers {
    /// Control and shift, with the two locks on or off.
    pub open spec fn with_locks(self, caps_lock: bool, num_lock: bool) -> u16 {
        let base = self.control | self.shift;
        if caps_lock && num_lock {
            base | self.caps_lock | self.num_lock
        } else if caps_lock {
            base | self.caps_lock
        } else if num_lock {
            base | self.num_lock
        } else {
            base
        }
    }

    /// The combinations to grab.
    pub open spec fn combinations(self) -> Seq<u16> {
        seq![
            self.with_locks(false, false),
            self.with_locks(true, false),
            self.with_locks(false, true),
            self.with_locks(true, true),
        ]
    }

    /// The combinations of modifiers to grab the space bar with: control and shift, with caps lock
    /// and num lock each on or off.
    pub fn grabs(&self) -> (out: Vec<u16>)
        ensures
            out@ == self.combinations(),
    {
        let base: u16 = self.control | self.shift;
        let out: Vec<u16> = vec![
            base,
            base | self.caps_lock,
            base | self.num_lock,
            base | self.caps_lock | self.num_lock,
        ];
        assert(out@ =~= self.combinations());
        out
    }
}

/// The hotkey is grabbed whether caps lock and num lock are on or off, and never without control
/// and shift: a combination is grabbed if and only if it is control and shift with the locks in
/// one of their states.
pub proof fn law_locks_do_not_matter(modifiers: Modifiers, mask: u16)
    ensures
        modifiers.combinations().contains(mask) <==> exists|caps: bool, num: bool|
            mask == #[trigger] modifiers.with_locks(caps, num),
        modifiers.combinations().contains(mask) ==> mask & modifiers.control == modifiers.control
            && mask & modifiers.shift == modifiers.shift,
{
    let all = modifiers.combinations();
    assert(all[0] == modifiers.with_locks(false, false));
    assert(all[1] == modifiers.with_locks(true, false));
    assert(all[2] == modifiers.with_locks(false, true));
    assert(all[3] == modifiers.with_locks(true, true));
    let (c, s, l, n) = (
        modifiers.control,
        modifiers.shift,
        modifiers.caps_lock,
        modifiers.num_lock,
    );
    assert((c | s) & c == c && (c | s) & s == s) by (bit_vector);
    assert((c | s | l) & c == c && (c | s | l) & s == s) by (bit_vector);
    assert((c | s | n) & c == c && (c | s | n) & s == s) by (bit_vector);
    assert((c | s | l | n) & c == c && (c | s | l | n) & s == s) by (bit_vector);
    if exists|caps: bool, num: bool| mask == #[trigger] modifiers.with_locks(caps, num) {
        let (caps, num) = choose|caps: bool, num: bool|
            mask == #[trigger] modifiers.with_locks(caps, num);
        assert(all.contains(modifiers.with_locks(caps, num)));
    }
}

// ---------------------------------------------------------------------------
// Setting up
// ---------------------------------------------------------------------------

/// How far the hotkey has been set up.
pub enum Setup {
    /// The display is to be reached.
    Connecting,
    /// These combinations are to be grabbed.
    Grabbing(Vec<u16>, usize),
    /// The grabs are to be sent off.
    Flushing,
    /// The hotkey is active.
    Active,
    /// The hotkey cannot be set up.
    Refused(String),
}

/// How far the hotkey has been set up: the combinations still to be grabbed, or the message.
pub enum SetupView {
    Connecting,
    Grabbing(Seq<u16>),
    Flushing,
    Active,
    Refused(Seq<char>),
}

/// What is to be done next.
pub enum SetupAction {
    /// Connect to the display.
    Connect,
    /// Grab the space bar with this combination of modifiers.
    Grab(u16),
    /// Send the grabs off.
    Flush,
    /// Listen for key presses.
    Listen,
    /// Report the message.
    Fail(String),
}

/// What is to be done next, with the message as a sequence of characters.
pub enum SetupActionView {
    Connect,
    Grab(u16),
    Flush,
    Listen,
    Fail(Seq<char>),
}

impl View for Setup {
    type V = SetupView;

    open spec fn view(&self) -> SetupView {
        match self {
            Setup::Connecting => SetupView::Connecting,
            Setup::Grabbing(grabs, at) => SetupView::Grabbing(grabs@.skip(*at as int)),
            Setup::Flushing => SetupView::Flushing,
            Setup::Active => SetupView::Active,
            Setup::Refused(message) => SetupView::Refused(message@),
        }
    }
}

impl View for SetupAction {
    type V = SetupActionView;

    open spec fn view(&self) -> SetupActionView {
        match self {
            SetupAction::Connect => SetupActionView::Connect,
            SetupAction::Grab(mask) => SetupActionView::Grab(*mask),
            SetupAction::Flush => SetupActionView::Flush,
            SetupAction::Listen => SetupActionView::Listen,
            SetupAction::Fail(message) => SetupActionView::Fail(message@),
        }
    }
}

impl SetupView {
    /// What is to be done next.
    pub open spec fn action(self) -> SetupActionView {
        match self {
            SetupView::Connecting => SetupActionView::Connect,
            SetupView::Grabbing(left) => SetupActionView::Grab(left[0]),
            SetupView::Flushing => SetupActionView::Flush,
            SetupView::Active => SetupActionView::Listen,
            SetupView::Refused(message) => SetupActionView::Fail(message),
        }
    }

    /// How things stand once that is done.
    pub open spec fn done(self, modifiers: Modifiers) -> SetupView {
        match self {
            SetupView::Connecting => SetupView::Grabbing(modifiers.combinations()),
            SetupView::Grabbing(left) => if left.len() > 1 {
                SetupView::Grabbing(left.drop_first())
            } else {
                SetupView::Flushing
            },
            SetupView::Flushing => SetupView::Active,
            other => other,
        }
    }

    /// How things stand once that has failed, where `detail` is what the system says about it.
    pub open spec fn failed(self, detail: Seq<char>) -> SetupView {
        match self {
            SetupView::Connecting => SetupView::Refused("X11 connect failed: "@ + detail),
            SetupView::Grabbing(_) => SetupView::Refused("Grab key failed: "@ + detail),
            SetupView::Flushing => SetupView::Refused("Flush failed: "@ + detail),
            other => other,
        }
    }

    /// How things stand once `n` steps are done.
    pub open spec fn after(self, modifiers: Modifiers, n: nat) -> SetupView
        decreases n,
    {
        if n == 0 {
            self
        } else {
            self.after(modifiers, (n - 1) as nat).done(modifiers)
        }
    }
}

/// A message with what the system says behind it.
fn message(what: &str, detail: &str) -> (out: String)
    ensures
        out@ == what@ + detail@,
{
    let mut out = what.to_owned();
    out.append(detail);
    out
}

impl Setup {
    /// Whether there is a combination left while there is grabbing to do.
    pub open spec fn wf(self) -> bool {
        self matches Setup::Grabbing(grabs, at) ==> at < grabs.len()
    }

    /// Nothing has been done yet.
    pub fn new() -> (out: Setup)
        ensures
            out@ == SetupView::Connecting,
            out.wf(),
    {
        Setup::Connecting
    }

    /// What is to be done next.
    pub fn action(&self) -> (out: SetupAction)
        requires
            self.wf(),
        ensures
            out@ == self@.action(),
    {
        match self {
            Setup::Connecting => SetupAction::Connect,
            Setup::Grabbing(grabs, at) => SetupAction::Grab(grabs[*at]),
            Setup::Flushing => SetupAction::Flush,
            Setup::Active => SetupAction::Listen,
            Setup::Refused(message) => SetupAction::Fail(message.clone()),
        }
    }

    /// How things stand once that is done.
    pub fn done(self, modifiers: &Modifiers) -> (out: Setup)
        requires
            self.wf(),
        ensures
            out@ == self@.done(*modifiers),
            out.wf(),
    {
        match self {
            Setup::Connecting => {
                let grabs = modifiers.grabs();
                assert(grabs@.skip(0) =~= grabs@);
                Setup::Grabbing(grabs, 0)
            },
            Setup::Grabbing(grabs, at) => {
                assert(grabs@.skip(at as int).drop_first() =~= grabs@.skip(at + 1));
                if grabs.len() - at > 1 {
                    Setup::Grabbing(grabs, at + 1)
                } else {
                    Setup::Flushing
                }
            },
            Setup::Flushing => Setup::Active,
            other => other,
        }
    }

    /// How things stand once that has failed, where `detail` is what the system says about it.
    pub fn failed(self, detail: &str) -> (out: Setup)
        ensures
            out@ == self@.failed(detail@),
            out.wf(),
    {
        match self {
            Setup::Connecting => Setup::Refused(message("X11 connect failed: ", detail)),
            Setup::Grabbing(_, _) => Setup::Refused(message("Grab key failed: ", detail)),
            Setup::Flushing => Setup::Refused(message("Flush failed: ", detail)),
            other => other,
        }
    }
}

/// Where nothing fails, the display is reached first, then each combination is grabbed once, then
/// the grabs are sent off, and then the hotkey is active.
pub proof fn law_setup_grabs_each_combination(modifiers: Modifiers)
    ensures
        ({
            let start = SetupView::Connecting;
            let all = modifiers.combinations();
            &&& start.action() == SetupActionView::Connect
            &&& all.len() == 4
            &&& forall|i: int|
                0 <= i < all.len() ==> (#[trigger] start.after(modifiers, (i + 1) as nat)).action()
                    == SetupActionView::Grab(all[i])
            &&& start.after(modifiers, 5).action() == SetupActionView::Flush
            &&& start.after(modifiers, 6) == SetupView::Active
        }),
{
    let start = SetupView::Connecting;
    let all = modifiers.combinations();
    let s1 = start.after(modifiers, 1);
    let s2 = start.after(modifiers, 2);
    let s3 = start.after(modifiers, 3);
    let s4 = start.after(modifiers, 4);
    let s5 = start.after(modifiers, 5);
    assert(start.after(modifiers, 0) == start);
    assert(s1 == SetupView::Grabbing(all));
    assert(s2 == SetupView::Grabbing(all.drop_first()));
    assert(s3 == SetupView::Grabbing(all.drop_first().drop_first()));
    assert(s4 == SetupView::Grabbing(all.drop_first().drop_first().drop_first()));
    assert(s5 == SetupView::Flushing);
    assert forall|i: int| 0 <= i < all.len() implies (#[trigger] start.after(
        modifiers,
        (i + 1) as nat,
    )).action() == SetupActionView::Grab(all[i]) by {
        assert(i == 0 || i == 1 || i == 2 || i == 3);
    }
}

/// Each failure on the way is reported with what failed and what the system says about it, and
/// nothing more is done.
pub proof fn law_setup_failure_is_final(state: SetupView, detail: Seq<char>, modifiers: Modifiers)
    requires
        state is Connecting || state is Grabbing || state is Flushing,
    ensures
        state.failed(detail) is Refused,
        state.failed(detail).done(modifiers) == state.failed(detail),
{
}

// ---------------------------------------------------------------------------
// Listening
// ---------------------------------------------------------------------------

/// What a look for events gave.
pub enum Polled {
    /// A key was pressed; this is its code.
    Key(u8),
    /// Something else happened.
    Other,
    /// Nothing happened.
    Nothing,
    /// The display is gone.
    Failed,
}

/// What to do next.
pub enum ListenerAction {
    /// Look for an event.
    Look,
    /// Pass on that listening is to be toggled, then see whether to quit.
    Toggle,
    /// See whether to quit.
    Continue,
    /// Wait this many milliseconds, then see whether to quit.
    Sleep(u64),
    /// Look no more.
    Stop,
}

/// What to do where the program is to quit or not.
pub open spec fn flag_action(should_quit: bool) -> ListenerAction {
    if should_quit {
        ListenerAction::Stop
    } else {
        ListenerAction::Look
    }
}

/// What to do about what a look for events gave.
pub open spec fn poll_action(polled: Polled) -> ListenerAction {
    match polled {
        Polled::Key(code) => if code == SPACE_KEYCODE {
            ListenerAction::Toggle
        } else {
            ListenerAction::Continue
        },
        Polled::Other => ListenerAction::Continue,
        Polled::Nothing => ListenerAction::Sleep(HOTKEY_POLL_MS),
        Polled::Failed => ListenerAction::Stop,
    }
}

/// What to do where the program is to quit or not: before each look for events this is seen to,
/// and once it is to quit there is nothing more to look for.
pub fn on_flag(should_quit: bool) -> (out: ListenerAction)
    ensures
        out == flag_action(should_quit),
{
    if should_quit {
        ListenerAction::Stop
    } else {
        ListenerAction::Look
    }
}

/// What to do about what a look for events gave: the space bar toggles, other events pass, where
/// nothing happened there is a short wait, and without a display there is nothing more to do.
pub fn on_poll(polled: Polled) -> (out: ListenerAction)
    ensures
        out == poll_action(polled),
{
    match polled {
        Polled::Key(code) => {
            if code == SPACE_KEYCODE {
                ListenerAction::Toggle
            } else {
                ListenerAction::Continue
            }
        },
        Polled::Other => ListenerAction::Continue,
        Polled::Nothing => ListenerAction::Sleep(HOTKEY_POLL_MS),
        Polled::Failed => ListenerAction::Stop,
    }
}

/// How often listening is toggled in the course of rounds, each of which finds that the program is
/// to quit or not and, if it is not, what a look for events gives.
pub open spec fn toggles(rounds: Seq<(bool, Polled)>) -> nat
    decreases rounds.len(),
{
    if rounds.len() == 0 || flag_action(rounds[0].0) is Stop {
        0
    } else {
        match poll_action(rounds[0].1) {
            ListenerAction::Stop => 0,
            ListenerAction::Toggle => 1 + toggles(rounds.drop_first()),
            _ => toggles(rounds.drop_first()),
        }
    }
}

/// How many presses of the space bar there are in the rounds.
pub open spec fn presses(rounds: Seq<(bool, Polled)>) -> nat
    decreases rounds.len(),
{
    if rounds.len() == 0 {
        0
    } else {
        (if rounds[0].1 == Polled::Key(SPACE_KEYCODE) {
            1nat
        } else {
            0
        }) + presses(rounds.drop_first())
    }
}

/// Whether a round is the last: the program is to quit, or the display is gone.
pub open spec fn ends_listening(round: (bool, Polled)) -> bool {
    round.0 || round.1 is Failed
}

/// Each press of the space bar toggles listening once, up to the first round in which the program
/// is to quit or the display is gone. Nothing toggles from there on.
pub proof fn law_each_press_toggles(rounds: Seq<(bool, Polled)>, rest: Seq<(bool, Polled)>)
    requires
        forall|i: int| 0 <= i < rounds.len() ==> !ends_listening(#[trigger] rounds[i]),
        rest.len() == 0 || ends_listening(rest[0]),
    ensures
        toggles(rounds + rest) == presses(rounds),
    decreases rounds.len(),
{
    let all = rounds + rest;
    if rounds.len() == 0 {
        assert(all =~= rest);
    } else {
        let later = rounds.drop_first();
        assert(!ends_listening(rounds[0]));
        assert forall|i: int| 0 <= i < later.len() implies !ends_listening(#[trigger] later[i]) by {
            assert(later[i] == rounds[i + 1]);
        }
        law_each_press_toggles(later, rest);
        assert(all.drop_first() =~= later + rest);
        assert(all[0] == rounds[0]);
    }
}

/// The space bar is grabbed with control and shift, for each state of the two locks, and with no
/// other modifiers.
pub proof fn law_grabs_are_control_and_shift(modifiers: Modifiers, mask: u16)
    ensures
        ({
            let held = modifiers.control | modifiers.shift;
            modifiers.combinations().contains(mask) <==> {
                ||| mask == held
                ||| mask == held | modifiers.caps_lock
                ||| mask == held | modifiers.num_lock
                ||| mask == held | modifiers.caps_lock | modifiers.num_lock
            }
        }),
        modifiers.combinations().len() == 4,
{
    let all = modifiers.combinations();
    let held = modifiers.control | modifiers.shift;
    assert(all[0] == held);
    assert(all[1] == held | modifiers.caps_lock);
    assert(all[2] == held | modifiers.num_lock);
    assert(all[3] == held | modifiers.caps_lock | modifiers.num_lock);
    if all.contains(mask) {
        let k = choose|k: int| 0 <= k < all.len() && all[k] == mask;
        assert(k == 0 || k == 1 || k == 2 || k == 3);
    }
}

/// Each failure while the hotkey is set up is named after what failed, and is what is reported.
/// Once the hotkey is active nothing about its set-up can fail.
pub proof fn law_setup_failures_are_named(
    left: Seq<u16>,
    detail: Seq<char>,
    message: Seq<char>,
    modifiers: Modifiers,
)
    ensures
        SetupView::Connecting.failed(detail).action() == SetupActionView::Fail(
            "X11 connect failed: "@ + detail,
        ),
        SetupView::Grabbing(left).failed(detail).action() == SetupActionView::Fail(
            "Grab key failed: "@ + detail,
        ),
        SetupView::Flushing.failed(detail).action() == SetupActionView::Fail(
            "Flush failed: "@ + detail,
        ),
        SetupView::Active.failed(detail) == SetupView::Active,
        SetupView::Active.done(modifiers) == SetupView::Active,
        SetupView::Active.action() == SetupActionView::Listen,
        SetupView::Refused(message).failed(detail) == SetupView::Refused(message),
        SetupView::Refused(message).done(modifiers) == SetupView::Refused(message),
        SetupView::Refused(message).action() == SetupActionView::Fail(message),
{
}

/// The combinations are grabbed one by one in their order, none is left out, and then the grabs are
/// sent off.
pub proof fn law_grabbing_goes_on(first: u16, left: Seq<u16>, modifiers: Modifiers)
    ensures
        ({
            let state = SetupView::Grabbing(seq![first] + left);
            &&& state.action() == SetupActionView::Grab(first)
            &&& left.len() > 0 ==> state.done(modifiers) == SetupView::Grabbing(left)
            &&& left.len() == 0 ==> state.done(modifiers).action() == SetupActionView::Flush
        }),
{
    assert((seq![first] + left).drop_first() =~= left);
}

/// Listening is toggled by a press of the space bar and by nothing else; only a display that is
/// gone ends the loop; only where nothing happened is there a wait, of ten milliseconds.
pub proof fn law_what_a_look_leads_to(polled: Polled)
    ensures
        poll_action(polled) is Toggle <==> polled == Polled::Key(65),
        poll_action(polled) is Stop <==> polled is Failed,
        poll_action(polled) is Sleep <==> polled is Nothing,
        poll_action(polled) is Sleep ==> poll_action(polled) == ListenerAction::Sleep(10),
        poll_action(polled) is Continue <==> polled is Other || polled is Key && polled
            != Polled::Key(65),
{
}

/// Before each look it is seen whether to quit: if so the loop ends, and if not there is a look.
pub proof fn law_quit_is_seen_before_each_look(should_quit: bool)
    ensures
        flag_action(should_quit) is Stop <==> should_quit,
        flag_action(should_quit) is Look <==> !should_quit,
{
}

/// What is to be done is taken as it is.
pub proof fn law_setup_action_views(mask: u16, message: String)
    ensures
        SetupAction::Connect@ == SetupActionView::Connect,
        SetupAction::Grab(mask)@ == SetupActionView::Grab(mask),
        SetupAction::Flush@ == SetupActionView::Flush,
        SetupAction::Listen@ == SetupActionView::Listen,
        SetupAction::Fail(message)@ == SetupActionView::Fail(message@),
{
}

} // verus!
