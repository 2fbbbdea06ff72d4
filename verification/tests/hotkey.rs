use whisper_notes::hotkey::{
    on_flag, on_poll, ListenerAction, Modifiers, Polled, Setup, SetupAction, SPACE_KEYCODE,
};

fn modifiers() -> Modifiers {
    Modifiers {
        control: 4,
        shift: 1,
        caps_lock: 2,
        num_lock: 16,
    }
}

#[test]
fn grabs() {
    assert_eq!(modifiers().grabs(), vec![5, 7, 21, 23]);
}

#[test]
fn setup_grabs_each_combination() {
    let mut setup = Setup::new();
    assert!(matches!(setup.action(), SetupAction::Connect));
    for mask in [5, 7, 21, 23] {
        setup = setup.done(&modifiers());
        assert!(matches!(setup.action(), SetupAction::Grab(m) if m == mask));
    }
    setup = setup.done(&modifiers());
    assert!(matches!(setup.action(), SetupAction::Flush));
    setup = setup.done(&modifiers());
    assert!(matches!(setup.action(), SetupAction::Listen));
    setup = setup.failed("late");
    assert!(matches!(setup.action(), SetupAction::Listen));
}

#[test]
fn setup_failures() {
    for (steps, expected) in [
        (0, "X11 connect failed: gone"),
        (1, "Grab key failed: gone"),
        (4, "Grab key failed: gone"),
        (5, "Flush failed: gone"),
    ] {
        let mut setup = Setup::new();
        for _ in 0..steps {
            setup = setup.done(&modifiers());
        }
        setup = setup.failed("gone").done(&modifiers());
        match setup.action() {
            SetupAction::Fail(message) => assert_eq!(message, expected),
            _ => panic!("{}", steps),
        }
    }
}

#[test]
fn polls() {
    assert_eq!(SPACE_KEYCODE, 65);
    assert!(matches!(on_poll(Polled::Key(65)), ListenerAction::Toggle));
    assert!(matches!(on_poll(Polled::Key(66)), ListenerAction::Continue));
    assert!(matches!(on_poll(Polled::Other), ListenerAction::Continue));
    assert!(matches!(on_poll(Polled::Nothing), ListenerAction::Sleep(10)));
    assert!(matches!(on_poll(Polled::Failed), ListenerAction::Stop));
}

#[test]
fn nothing_is_looked_for_once_the_program_is_to_quit() {
    assert!(matches!(on_flag(false), ListenerAction::Look));
    assert!(matches!(on_flag(true), ListenerAction::Stop));
}
