use serial_monitor::config::{DataBits, Eol, FlowControl, Parity, SessionConfig, StopBits};
use serial_monitor::key::{
    encode_char, handle_key_event, key_sequence, KeyCode, KeyEvent, KeyModifiers, ALT, CONTROL,
    NONE, SHIFT,
};

fn config(enter: Eol, echo: bool, debug: bool) -> SessionConfig {
    SessionConfig {
        baud: 115200,
        data_bits: DataBits::Eight,
        parity: Parity::Off,
        stop_bits: StopBits::One,
        flow_control: FlowControl::Off,
        enter,
        ctrl_y_exit: false,
        echo,
        debug,
    }
}

fn key(code: KeyCode, bits: u8) -> KeyEvent {
    KeyEvent { code, modifiers: KeyModifiers { bits } }
}

fn sent(code: KeyCode, bits: u8, enter: Eol) -> Option<Vec<u8>> {
    handle_key_event(key(code, bits), &config(enter, false, false)).map(|o| o.bytes.to_vec())
}

#[test]
fn named_keys_send_their_sequences() {
    let table: [(KeyCode, &[u8]); 11] = [
        (KeyCode::Backspace, &[0x08]),
        (KeyCode::Left, &[0x1b, 0x5b, 0x44]),
        (KeyCode::Right, &[0x1b, 0x5b, 0x43]),
        (KeyCode::Up, &[0x1b, 0x5b, 0x41]),
        (KeyCode::Down, &[0x1b, 0x5b, 0x42]),
        (KeyCode::Home, &[0x1b, 0x5b, 0x48]),
        (KeyCode::End, &[0x1b, 0x5b, 0x46]),
        (KeyCode::Tab, &[0x09]),
        (KeyCode::Delete, &[0x1b, 0x5b, 0x33, 0x7e]),
        (KeyCode::Insert, &[0x1b, 0x5b, 0x32, 0x7e]),
        (KeyCode::Esc, &[0x1b]),
    ];
    for (code, bytes) in table {
        assert_eq!(sent(code, NONE, Eol::Cr), Some(bytes.to_vec()));
        assert_eq!(sent(code, CONTROL, Eol::Cr), Some(bytes.to_vec()));
    }
}

#[test]
fn left_sends_escape_bracket_d() {
    assert_eq!(sent(KeyCode::Left, NONE, Eol::Cr), Some(vec![0x1b, 0x5b, 0x44]));
}

#[test]
fn enter_sends_the_configured_line_ending() {
    assert_eq!(sent(KeyCode::Enter, NONE, Eol::Cr), Some(vec![0x0d]));
    assert_eq!(sent(KeyCode::Enter, NONE, Eol::Crlf), Some(vec![0x0d, 0x0a]));
    assert_eq!(sent(KeyCode::Enter, NONE, Eol::Lf), Some(vec![0x0a]));
}

#[test]
fn control_with_a_letter_sends_its_control_code() {
    assert_eq!(sent(KeyCode::Char('a'), CONTROL, Eol::Cr), Some(vec![0x01]));
    assert_eq!(sent(KeyCode::Char('c'), CONTROL, Eol::Cr), Some(vec![0x03]));
    assert_eq!(sent(KeyCode::Char('z'), CONTROL, Eol::Cr), Some(vec![0x1a]));
    for (i, ch) in ('a'..='z').enumerate() {
        assert_eq!(sent(KeyCode::Char(ch), CONTROL, Eol::Cr), Some(vec![i as u8 + 1]));
    }
}

#[test]
fn control_with_space_sends_nul() {
    assert_eq!(sent(KeyCode::Char(' '), CONTROL, Eol::Cr), Some(vec![0x00]));
}

#[test]
fn control_with_digits_four_to_seven() {
    assert_eq!(sent(KeyCode::Char('4'), CONTROL, Eol::Cr), Some(vec![0x1c]));
    assert_eq!(sent(KeyCode::Char('5'), CONTROL, Eol::Cr), Some(vec![0x1d]));
    assert_eq!(sent(KeyCode::Char('6'), CONTROL, Eol::Cr), Some(vec![0x1e]));
    assert_eq!(sent(KeyCode::Char('7'), CONTROL, Eol::Cr), Some(vec![0x1f]));
}

#[test]
fn control_with_any_other_character_sends_the_character() {
    assert_eq!(sent(KeyCode::Char('A'), CONTROL, Eol::Cr), Some(vec![0x41]));
    assert_eq!(sent(KeyCode::Char('3'), CONTROL, Eol::Cr), Some(vec![0x33]));
    assert_eq!(sent(KeyCode::Char('8'), CONTROL, Eol::Cr), Some(vec![0x38]));
    assert_eq!(sent(KeyCode::Char('`'), CONTROL, Eol::Cr), Some(vec![0x60]));
    assert_eq!(sent(KeyCode::Char('{'), CONTROL, Eol::Cr), Some(vec![0x7b]));
    assert_eq!(sent(KeyCode::Char('\u{e9}'), CONTROL, Eol::Cr), Some(vec![0xc3, 0xa9]));
}

#[test]
fn control_counts_among_other_modifiers() {
    assert_eq!(sent(KeyCode::Char('a'), CONTROL | SHIFT, Eol::Cr), Some(vec![0x01]));
    assert_eq!(sent(KeyCode::Char('a'), CONTROL | ALT, Eol::Cr), Some(vec![0x01]));
    assert_eq!(sent(KeyCode::Char('a'), SHIFT | ALT, Eol::Cr), Some(vec![0x61]));
}

#[test]
fn characters_are_sent_as_utf8() {
    assert_eq!(sent(KeyCode::Char('q'), NONE, Eol::Cr), Some(vec![0x71]));
    assert_eq!(sent(KeyCode::Char('\u{e9}'), NONE, Eol::Cr), Some(vec![0xc3, 0xa9]));
    assert_eq!(sent(KeyCode::Char('\u{20ac}'), NONE, Eol::Cr), Some(vec![0xe2, 0x82, 0xac]));
    assert_eq!(
        sent(KeyCode::Char('\u{1f600}'), NONE, Eol::Cr),
        Some(vec![0xf0, 0x9f, 0x98, 0x80])
    );
}

#[test]
fn encode_char_agrees_with_the_standard_encoding() {
    let samples = [
        '\0', 'a', '\u{7f}', '\u{80}', '\u{7ff}', '\u{800}', '\u{d7ff}', '\u{e000}', '\u{fffd}',
        '\u{ffff}', '\u{10000}', '\u{10ffff}',
    ];
    for ch in samples {
        let mut buf = [0u8; 4];
        assert_eq!(encode_char(ch), ch.encode_utf8(&mut buf).as_bytes().to_vec());
    }
}

#[test]
fn keys_without_a_sequence_send_nothing() {
    assert_eq!(sent(KeyCode::F(1), NONE, Eol::Cr), None);
    assert_eq!(sent(KeyCode::PageUp, NONE, Eol::Cr), None);
    assert_eq!(sent(KeyCode::PageDown, NONE, Eol::Cr), None);
    assert_eq!(sent(KeyCode::BackTab, NONE, Eol::Cr), None);
    assert_eq!(sent(KeyCode::Null, NONE, Eol::Cr), None);
    assert_eq!(sent(KeyCode::Other, CONTROL, Eol::Cr), None);
    assert!(handle_key_event(key(KeyCode::F(5), NONE), &config(Eol::Cr, true, true)).is_none());
}

#[test]
fn key_sequence_agrees_with_handle_key_event() {
    assert_eq!(key_sequence(key(KeyCode::Delete, NONE), Eol::Lf), Some(vec![0x1b, 0x5b, 0x33, 0x7e]));
    assert_eq!(key_sequence(key(KeyCode::Enter, NONE), Eol::Lf), Some(vec![0x0a]));
    assert_eq!(key_sequence(key(KeyCode::F(12), NONE), Eol::Lf), None);
}

#[test]
fn echo_shows_what_is_sent() {
    let outcome = handle_key_event(key(KeyCode::Char('q'), NONE), &config(Eol::Cr, true, false))
        .expect("a character is sent");
    assert_eq!(&outcome.bytes[..], &[0x71]);
    assert_eq!(outcome.echo, Some(String::from("q")));
    assert_eq!(outcome.trace, None);
}

#[test]
fn echo_of_a_wide_character_and_of_enter() {
    let outcome =
        handle_key_event(key(KeyCode::Char('\u{20ac}'), NONE), &config(Eol::Cr, true, false))
            .expect("a character is sent");
    assert_eq!(outcome.echo, Some(String::from("\u{20ac}")));
    let outcome = handle_key_event(key(KeyCode::Enter, NONE), &config(Eol::Crlf, true, false))
        .expect("enter is sent");
    assert_eq!(outcome.echo, Some(String::from("\r\n")));
}

#[test]
fn no_echo_unless_asked_for() {
    let outcome = handle_key_event(key(KeyCode::Char('q'), NONE), &config(Eol::Cr, false, false))
        .expect("a character is sent");
    assert_eq!(&outcome.bytes[..], &[0x71]);
    assert_eq!(outcome.echo, None);
}

#[test]
fn trace_is_the_dump_of_what_is_sent() {
    let outcome = handle_key_event(key(KeyCode::Left, NONE), &config(Eol::Cr, false, true))
        .expect("an arrow is sent");
    assert_eq!(outcome.trace, Some(String::from("1b 5b 44 : ESC[D")));
    assert_eq!(outcome.echo, None);
    let outcome = handle_key_event(key(KeyCode::Char('a'), CONTROL), &config(Eol::Cr, true, true))
        .expect("a control code is sent");
    assert_eq!(outcome.trace, Some(String::from("01 : Ctrl-A")));
    assert_eq!(outcome.echo, Some(String::from("\u{1}")));
}

#[test]
fn has_control_reads_the_control_bit() {
    assert!(KeyModifiers { bits: CONTROL }.has_control());
    assert!(KeyModifiers { bits: 0xff }.has_control());
    assert!(!KeyModifiers { bits: NONE }.has_control());
    assert!(!KeyModifiers { bits: SHIFT | ALT }.has_control());
}
