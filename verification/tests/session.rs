use serial_monitor::config::{
    exit_code, DataBits, Eol, FlowControl, Parity, SessionConfig, StopBits,
};
use serial_monitor::key::{KeyCode, KeyEvent, KeyModifiers, TerminalInputEvent, CONTROL, NONE, SHIFT};
use serial_monitor::session::{
    Session, SessionAction, SessionEvent, SessionState, TerminationReason,
};
use tokio_util::bytes::BytesMut;

fn config(ctrl_y_exit: bool, echo: bool, debug: bool) -> SessionConfig {
    SessionConfig {
        baud: 9600,
        data_bits: DataBits::Eight,
        parity: Parity::Off,
        stop_bits: StopBits::One,
        flow_control: FlowControl::Off,
        enter: Eol::Cr,
        ctrl_y_exit,
        echo,
        debug,
    }
}

fn key(code: KeyCode, bits: u8) -> SessionEvent {
    SessionEvent::Terminal(TerminalInputEvent::Key(KeyEvent {
        code,
        modifiers: KeyModifiers { bits },
    }))
}

fn serial(bytes: &[u8]) -> SessionEvent {
    SessionEvent::SerialData(BytesMut::from(bytes))
}

fn sent(action: &SessionAction) -> Option<Vec<u8>> {
    match action {
        SessionAction::Send(outcome) => Some(outcome.bytes.to_vec()),
        _ => None,
    }
}

#[test]
fn a_new_session_is_running() {
    let session = Session::new(config(false, false, false));
    assert_eq!(session.state(), SessionState::Running);
    assert!(session.is_running());
}

#[test]
fn a_key_is_sent() {
    let mut session = Session::new(config(false, false, false));
    let action = session.step(key(KeyCode::Up, NONE));
    assert_eq!(sent(&action), Some(vec![0x1b, 0x5b, 0x41]));
    assert_eq!(session.state(), SessionState::Running);
}

#[test]
fn echo_fidelity() {
    let mut session = Session::new(config(false, true, false));
    match session.step(key(KeyCode::Char('q'), NONE)) {
        SessionAction::Send(outcome) => {
            assert_eq!(&outcome.bytes[..], &[0x71]);
            assert_eq!(outcome.echo, Some(String::from("q")));
            assert_eq!(outcome.trace, None);
        }
        other => panic!("expected bytes to send, got {:?}", other),
    }
    assert!(session.is_running());
}

#[test]
fn the_exit_key_ends_the_session() {
    let mut session = Session::new(config(false, false, false));
    let action = session.step(key(KeyCode::Char('x'), CONTROL));
    assert!(matches!(action, SessionAction::Stop(TerminationReason::UserExit)));
    assert_eq!(session.state(), SessionState::Terminating(TerminationReason::UserExit));
    assert!(!session.is_running());
}

#[test]
fn the_exit_key_can_be_control_y() {
    let mut session = Session::new(config(true, false, false));
    let action = session.step(key(KeyCode::Char('x'), CONTROL));
    assert_eq!(sent(&action), Some(vec![0x18]));
    let action = session.step(key(KeyCode::Char('y'), CONTROL));
    assert!(matches!(action, SessionAction::Stop(TerminationReason::UserExit)));
}

#[test]
fn only_the_exact_exit_event_ends_the_session() {
    let mut session = Session::new(config(false, false, false));
    assert_eq!(sent(&session.step(key(KeyCode::Char('x'), NONE))), Some(vec![0x78]));
    assert_eq!(sent(&session.step(key(KeyCode::Char('x'), CONTROL | SHIFT))), Some(vec![0x18]));
    assert_eq!(sent(&session.step(key(KeyCode::Char('y'), CONTROL))), Some(vec![0x19]));
    assert_eq!(sent(&session.step(key(KeyCode::Char('X'), CONTROL))), Some(vec![0x58]));
    assert!(session.is_running());
}

#[test]
fn exit_precedence_over_a_burst_of_events() {
    let mut session = Session::new(config(false, true, true));
    let burst = vec![
        key(KeyCode::Char('a'), NONE),
        key(KeyCode::Char('x'), CONTROL),
        key(KeyCode::Char('b'), NONE),
        key(KeyCode::Enter, NONE),
        serial(b"late"),
        SessionEvent::Terminal(TerminalInputEvent::Other),
        key(KeyCode::Char('x'), CONTROL),
        SessionEvent::SerialError,
        SessionEvent::WriteCompleted,
    ];
    let mut actions = Vec::new();
    for event in burst {
        actions.push(session.step(event));
    }
    assert_eq!(sent(&actions[0]), Some(vec![0x61]));
    assert!(matches!(actions[1], SessionAction::Stop(TerminationReason::UserExit)));
    for action in &actions[2..] {
        assert!(matches!(action, SessionAction::Idle));
    }
    assert_eq!(session.state(), SessionState::Terminating(TerminationReason::UserExit));
}

#[test]
fn text_from_the_device_is_displayed() {
    let mut session = Session::new(config(false, false, false));
    match session.step(serial(b"ok\r\n")) {
        SessionAction::Display(text) => assert_eq!(text, "ok\r\n"),
        other => panic!("expected text to display, got {:?}", other),
    }
}

#[test]
fn text_from_the_device_is_traced_in_debug_mode() {
    let mut session = Session::new(config(false, false, true));
    match session.step(serial(b"\x1b[0m")) {
        SessionAction::Trace(text) => assert_eq!(text, "\u{1b}[0m"),
        other => panic!("expected text to trace, got {:?}", other),
    }
}

#[test]
fn the_session_decodes_across_chunks() {
    let mut session = Session::new(config(false, false, false));
    assert!(matches!(session.step(serial(&[0xe2, 0x82])), SessionAction::Idle));
    assert!(matches!(session.step(serial(&[])), SessionAction::Idle));
    match session.step(serial(&[0xac, 0x21])) {
        SessionAction::Display(text) => assert_eq!(text, "\u{20ac}!"),
        other => panic!("expected text to display, got {:?}", other),
    }
}

#[test]
fn other_events_are_logged() {
    let mut session = Session::new(config(false, false, false));
    let action = session.step(SessionEvent::Terminal(TerminalInputEvent::Other));
    assert!(matches!(action, SessionAction::Log(TerminalInputEvent::Other)));
    assert!(session.is_running());
}

#[test]
fn keys_that_send_nothing_are_logged() {
    let mut session = Session::new(config(false, false, false));
    let event = KeyEvent { code: KeyCode::F(3), modifiers: KeyModifiers { bits: NONE } };
    match session.step(SessionEvent::Terminal(TerminalInputEvent::Key(event))) {
        SessionAction::Log(logged) => assert_eq!(logged, TerminalInputEvent::Key(event)),
        other => panic!("expected a report, got {:?}", other),
    }
    assert!(session.is_running());
}

#[test]
fn a_completed_write_changes_nothing() {
    let mut session = Session::new(config(false, false, false));
    assert!(matches!(session.step(SessionEvent::WriteCompleted), SessionAction::Idle));
    assert!(session.is_running());
}

#[test]
fn a_closed_device_ends_the_session() {
    let mut session = Session::new(config(false, false, false));
    assert!(matches!(session.step(serial(&[0xc3])), SessionAction::Idle));
    let action = session.step(SessionEvent::SerialClosed);
    assert!(matches!(action, SessionAction::Stop(TerminationReason::SerialClosed)));
    assert_eq!(session.state(), SessionState::Terminating(TerminationReason::SerialClosed));
    assert_eq!(session.finish(), Some(TerminationReason::SerialClosed));
    assert_eq!(session.state(), SessionState::Terminated);
}

#[test]
fn a_failing_device_ends_the_session() {
    let mut session = Session::new(config(false, false, false));
    let action = session.step(SessionEvent::SerialError);
    assert!(matches!(action, SessionAction::Stop(TerminationReason::SerialError)));
    assert_eq!(session.state(), SessionState::Terminating(TerminationReason::SerialError));
    assert!(matches!(session.step(key(KeyCode::Char('a'), NONE)), SessionAction::Idle));
}

#[test]
fn a_closed_or_failing_keyboard_ends_the_session() {
    let mut session = Session::new(config(false, false, false));
    let action = session.step(SessionEvent::KeyboardClosed);
    assert!(matches!(action, SessionAction::Stop(TerminationReason::KeyboardClosed)));
    let mut session = Session::new(config(false, false, false));
    let action = session.step(SessionEvent::KeyboardError);
    assert!(matches!(action, SessionAction::Stop(TerminationReason::KeyboardError)));
    assert_eq!(session.state(), SessionState::Terminating(TerminationReason::KeyboardError));
}

#[test]
fn the_first_reason_stands() {
    let mut session = Session::new(config(false, false, false));
    session.step(SessionEvent::SerialError);
    assert!(matches!(session.step(SessionEvent::KeyboardClosed), SessionAction::Idle));
    assert_eq!(session.finish(), Some(TerminationReason::SerialError));
}

#[test]
fn finish_of_a_running_session_changes_nothing() {
    let mut session = Session::new(config(false, false, false));
    assert_eq!(session.finish(), None);
    assert_eq!(session.state(), SessionState::Running);
}

#[test]
fn a_terminated_session_stays_terminated() {
    let mut session = Session::new(config(false, false, false));
    session.step(key(KeyCode::Char('x'), CONTROL));
    assert_eq!(session.finish(), Some(TerminationReason::UserExit));
    assert_eq!(session.finish(), None);
    assert!(matches!(session.step(serial(b"x")), SessionAction::Idle));
    assert_eq!(session.state(), SessionState::Terminated);
}

#[test]
fn exit_code_is_control_with_the_exit_letter() {
    let expected = |ch| {
        TerminalInputEvent::Key(KeyEvent {
            code: KeyCode::Char(ch),
            modifiers: KeyModifiers { bits: CONTROL },
        })
    };
    assert_eq!(exit_code(&config(false, false, false)), expected('x'));
    assert_eq!(exit_code(&config(true, false, false)), expected('y'));
}
