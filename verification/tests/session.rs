use whisper_notes::ipc::Transcription;
use whisper_notes::session::{Action, Event, Session};
use whisper_notes::utterance::{
    display_text, handle_utterance, mark_feeds, mark_returns, millis_between, text_to_write,
    Outcome, Tracking,
};

const MS: u128 = 1_000_000;

fn items(texts: &[&str]) -> Event {
    Event::Items(
        texts
            .iter()
            .map(|t| Transcription {
                text: t.to_string(),
            })
            .collect(),
    )
}

/// A session that listens since `now` and is about to fetch.
fn listening(gap_ms: Option<u64>, now: u128) -> Session {
    Session::new(gap_ms)
        .advance(Event::Flag(false))
        .advance(Event::Flag(true))
        .advance(Event::Flag(true))
        .advance(Event::Clock(now))
        .advance(Event::Done)
}

fn started(now: u128) -> Tracking {
    Tracking {
        started_at: Some(now),
        last_at: None,
        first: true,
    }
}

/// Takes a batch down at `times` and returns what is appended.
fn take_down(mut session: Session, texts: &[&str], times: &[u128]) -> (String, Session) {
    let mut out = String::new();
    let mut next = 0;
    session = session.advance(items(texts));
    loop {
        let event = match session.action() {
            Action::ReadClock => {
                next += 1;
                Event::Clock(times[next - 1])
            }
            Action::ReportDiscarded(_) => Event::Done,
            Action::Append { to_write, .. } => {
                out.push_str(&to_write);
                Event::Done
            }
            _ => return (out, session),
        };
        session = session.advance(event);
    }
}

#[test]
fn a_round_without_the_hotkey() {
    let session = Session::new(None);
    assert!(matches!(session.action(), Action::CheckQuit));
    let session = session.advance(Event::Flag(false));
    assert!(matches!(session.action(), Action::CheckToggle));
    let session = session.advance(Event::Flag(false));
    assert!(matches!(session.action(), Action::Sleep(100)));
    let session = session.advance(Event::Done);
    assert!(matches!(session.action(), Action::CheckQuit));
    let session = session.advance(Event::Flag(true));
    assert!(matches!(session.action(), Action::End));
    let session = session.advance(Event::Flag(false));
    assert!(matches!(session.action(), Action::End));
}

#[test]
fn the_hotkey_turns_listening_on_and_off() {
    let session = Session::new(None).advance(Event::Flag(false));
    let session = session.advance(Event::Flag(true));
    assert!(matches!(session.action(), Action::CheckServer));
    let session = session.advance(Event::Flag(true));
    assert!(matches!(session.action(), Action::Start));
    let session = session.advance(Event::Clock(5));
    assert!(matches!(session.action(), Action::Sleep(200)));
    let session = session.advance(Event::Done);
    assert!(matches!(session.action(), Action::Fetch));
    let session = session.advance(items(&[]));
    assert!(matches!(session.action(), Action::Sleep(100)));
    let session = session.advance(Event::Done).advance(Event::Flag(false));
    let session = session.advance(Event::Flag(true));
    assert!(matches!(session.action(), Action::ReportStopped));
    let session = session.advance(Event::Done);
    assert!(matches!(session.action(), Action::Sleep(100)));
}

#[test]
fn without_the_server_listening_stays_off() {
    let session = Session::new(None)
        .advance(Event::Flag(false))
        .advance(Event::Flag(true))
        .advance(Event::Flag(false));
    assert!(matches!(session.action(), Action::ReportNoServer));
    let session = session.advance(Event::Done);
    assert!(matches!(session.action(), Action::Sleep(100)));
}

#[test]
fn events_that_answer_nothing_leave_the_session() {
    let session = Session::new(None).advance(Event::Done).advance(Event::Clock(1));
    assert!(matches!(session.action(), Action::CheckQuit));
    let session = session.advance(items(&["a"]));
    assert!(matches!(session.action(), Action::CheckQuit));
}

#[test]
fn a_batch_without_timestamps() {
    let (out, session) = take_down(
        listening(None, 0),
        &[
            " Hello world. ",
            "Thank you.",
            "   ",
            ".",
            "Command enter.",
            "next",
        ],
        &[1, 2, 3, 4, 5, 6],
    );
    assert_eq!(out, "Hello world \r\nnext ");
    assert!(matches!(session.action(), Action::Sleep(100)));
}

#[test]
fn a_batch_with_timestamps() {
    let start = 7 * MS;
    let (out, _) = take_down(
        listening(Some(200), start),
        &["Hello.", "you", "again", "later", "end"],
        &[
            start + 1_234 * MS,
            start + 1_300 * MS,
            start + 1_434 * MS + 999_999,
            start + 5_678 * MS,
            start + 5_879 * MS,
        ],
    );
    assert_eq!(
        out,
        "\n[00:00:01,234] Hello again\n[00:00:05,678] later\n[00:00:05,879] end"
    );
}

#[test]
fn discarded_and_appended_utterances_are_reported_trimmed() {
    let session = listening(None, 0)
        .advance(items(&[" Thanks! ", " a. "]))
        .advance(Event::Clock(0));
    assert!(matches!(session.action(), Action::ReportDiscarded(t) if t == "Thanks!"));
    let session = session.advance(Event::Done).advance(Event::Clock(0));
    assert!(
        matches!(session.action(), Action::Append { text, to_write } if text == "a." && to_write == "a ")
    );
}

#[test]
fn listening_anew_starts_a_new_line() {
    let (_, session) = take_down(listening(Some(1_000), 0), &["one"], &[MS]);
    let session = session
        .advance(Event::Done)
        .advance(Event::Flag(false))
        .advance(Event::Flag(true))
        .advance(Event::Done)
        .advance(Event::Done)
        .advance(Event::Flag(false))
        .advance(Event::Flag(true))
        .advance(Event::Flag(true))
        .advance(Event::Clock(2 * MS))
        .advance(Event::Done);
    let (out, _) = take_down(session, &["two"], &[5 * MS]);
    assert_eq!(out, "\n[00:00:00,003] two");
}

#[test]
fn utterances() {
    let mut tracking = started(0);
    assert!(matches!(
        handle_utterance("  ", Some(5), &mut tracking, 1),
        Outcome::Nothing
    ));
    assert!(matches!(
        handle_utterance("you", Some(5), &mut tracking, 1),
        Outcome::Discarded(_)
    ));
    assert!(tracking.first && tracking.last_at.is_none());
    assert!(matches!(
        handle_utterance("a", None, &mut tracking, 1),
        Outcome::Append { .. }
    ));
    assert!(tracking.first && tracking.last_at.is_none());
    assert!(matches!(
        handle_utterance("a", Some(5), &mut tracking, 9),
        Outcome::Append { .. }
    ));
    assert!(!tracking.first && tracking.last_at == Some(9) && tracking.started_at == Some(0));
}

#[test]
fn texts_to_write() {
    let write = |s: &str, gap, tracking: &Tracking, now| text_to_write(s.to_string(), gap, tracking, now);
    assert_eq!(write("a", None, &started(0), 0), "a ");
    assert_eq!(write("\r\n", None, &started(0), 0), "\r\n");
    assert_eq!(write("a\r\n", None, &started(0), 0), "a\r\n ");
    assert_eq!(write("a", Some(0), &started(0), 0), "\n[00:00:00,000] a");
    let later = Tracking {
        started_at: Some(0),
        last_at: Some(10 * MS),
        first: false,
    };
    assert_eq!(write("a", Some(5), &later, 15 * MS), " a");
    assert_eq!(write("a", Some(5), &later, 16 * MS), "\n[00:00:00,016] a");
    let unknown = Tracking {
        started_at: None,
        last_at: None,
        first: false,
    };
    assert_eq!(write("a", Some(5), &unknown, 15 * MS), "\n[00:00:00,000] a");
}

#[test]
fn milliseconds() {
    assert_eq!(millis_between(0, 999_999), 0);
    assert_eq!(millis_between(1, 1_000_001), 1);
    assert_eq!(millis_between(5, 4), 0);
}

#[test]
fn shown_texts() {
    assert_eq!(mark_returns("a\r\nb\r\r\n"), "a\u{23ce}\nb\r\u{23ce}\n");
    assert_eq!(mark_feeds("a\nb"), "a\u{23ce}\nb");
    for s in ["\r\n", "a ", "\n[00:00:01,234] a", " a\r\nb\n", "\n"] {
        let expected = s.replace("\r\n", "\u{23ce}\n").replace('\n', "\u{23ce}\n");
        assert_eq!(display_text(s), expected.trim());
    }
}
