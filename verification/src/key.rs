//! Key events of the terminal, and the bytes that each sends to the device.

use crate::config::{Eol, SessionConfig};
use crate::hex::{hex_dump, hex_str};
use crate::trusted::{bytes_from_slice, payload, str_from_utf8};
use tokio_util::bytes::Bytes;
use vstd::prelude::*;
use vstd::string::*;
use vstd::utf8::*;

verus! {

/// Modifier bit: Shift.
pub const SHIFT: u8 = 0x01;

/// Modifier bit: Control.
pub const CONTROL: u8 = 0x02;

/// Modifier bit: Alt.
pub const ALT: u8 = 0x04;

/// No modifier.
pub const NONE: u8 = 0x00;

/// The modifiers held down with a key, one bit each.
#[derive(Clone, Copy, Debug, PartialEq, Eq, Structural)]
pub struct KeyModifiers {
    /// The modifier bits.
    pub bits: u8,
}

impl KeyModifiers {
    /// True when Control is among the modifiers.
    pub open spec fn spec_has_control(self) -> bool {
        self.bits & CONTROL == CONTROL
    }

    /// True when Control is among the modifiers.
    #[verifier::when_used_as_spec(spec_has_control)]
    pub fn has_control(self) -> (r: bool)
        ensures
            r == self.spec_has_control(),
    {
        self.bits & CONTROL == CONTROL
    }
}

/// A key.
#[derive(Clone, Copy, Debug, PartialEq, Eq, Structural)]
pub enum KeyCode {
    /// Backspace key.
    Backspace,
    /// Enter key.
    Enter,
    /// Left arrow key.
    Left,
    /// Right arrow key.
    Right,
    /// Up arrow key.
    Up,
    /// Down arrow key.
    Down,
    /// Home key.
    Home,
    /// End key.
    End,
    /// Page up key.
    PageUp,
    /// Page down key.
    PageDown,
    /// Tab key.
    Tab,
    /// Shift + Tab key.
    BackTab,
    /// Delete key.
    Delete,
    /// Insert key.
    Insert,
    /// A function key, by its number.
    F(u8),
    /// A character.
    Char(char),
    /// Null.
    Null,
    /// Escape key.
    Esc,
    /// Any key that has no name here.
    Other,
}

/// A key with the modifiers held down.
#[derive(Clone, Copy, Debug, PartialEq, Eq, Structural)]
pub struct KeyEvent {
    /// The key itself.
    pub code: KeyCode,
    /// Additional key modifiers.
    pub modifiers: KeyModifiers,
}

/// What the terminal reports.
#[derive(Clone, Copy, Debug, PartialEq, Eq, Structural)]
pub enum TerminalInputEvent {
    /// A key was pressed.
    Key(KeyEvent),
    /// Anything else: mouse, resize, focus, paste. It is reported, and sends
    /// nothing.
    Other,
}

/// The bytes of a character typed with Control: the control code of a
/// lowercase letter or of the space, the control codes `0x1c` to `0x1f` for
/// the digits 4 to 7, and the UTF-8 encoding of any other character.
pub open spec fn control_bytes(ch: char) -> Seq<u8> {
    if ('a' <= ch <= 'z') || ch == ' ' {
        seq![(ch as u8) & 0x1f]
    } else if '4' <= ch <= '7' {
        seq![(((ch as u8) + 8) as u8) & 0x1f]
    } else {
        encode_scalar(ch as u32)
    }
}

/// The bytes that a key sends to the device; `None` for a key that sends
/// nothing.
pub open spec fn key_bytes(key_event: KeyEvent, enter: Eol) -> Option<Seq<u8>> {
    match key_event.code {
        KeyCode::Backspace => Some(seq![0x08u8]),
        KeyCode::Enter => Some(enter.spec_bytes()),
        KeyCode::Left => Some(seq![0x1bu8, 0x5b, 0x44]),
        KeyCode::Right => Some(seq![0x1bu8, 0x5b, 0x43]),
        KeyCode::Home => Some(seq![0x1bu8, 0x5b, 0x48]),
        KeyCode::End => Some(seq![0x1bu8, 0x5b, 0x46]),
        KeyCode::Up => Some(seq![0x1bu8, 0x5b, 0x41]),
        KeyCode::Down => Some(seq![0x1bu8, 0x5b, 0x42]),
        KeyCode::Tab => Some(seq![0x09u8]),
        KeyCode::Delete => Some(seq![0x1bu8, 0x5b, 0x33, 0x7e]),
        KeyCode::Insert => Some(seq![0x1bu8, 0x5b, 0x32, 0x7e]),
        KeyCode::Esc => Some(seq![0x1bu8]),
        KeyCode::Char(ch) => if key_event.modifiers.has_control() {
            Some(control_bytes(ch))
        } else {
            Some(encode_scalar(ch as u32))
        },
        _ => None,
    }
}

/// The UTF-8 encoding of a character.
pub fn encode_char(ch: char) -> (out: Vec<u8>)
    ensures
        out@ == encode_scalar(ch as u32),
{
    let v: u32 = ch as u32;
    proof {
        char_is_scalar(ch);
    }
    if v <= 0x7f {
        let b0: u8 = (v & 0x7f) as u8;
        vec![b0]
    } else if v <= 0x7ff {
        assert(((v >> 6) & 0x1f) < 0x100 && (v & 0x3f) < 0x100) by (bit_vector);
        let b0: u8 = 0xc0 | ((v >> 6) & 0x1f) as u8;
        let b1: u8 = 0x80 | (v & 0x3f) as u8;
        vec![b0, b1]
    } else if v <= 0xffff {
        assert(((v >> 12) & 0x0f) < 0x100 && ((v >> 6) & 0x3f) < 0x100 && (v & 0x3f) < 0x100)
            by (bit_vector);
        let b0: u8 = 0xe0 | ((v >> 12) & 0x0f) as u8;
        let b1: u8 = 0x80 | ((v >> 6) & 0x3f) as u8;
        let b2: u8 = 0x80 | (v & 0x3f) as u8;
        vec![b0, b1, b2]
    } else {
        assert(((v >> 18) & 0x07) < 0x100 && ((v >> 12) & 0x3f) < 0x100 && ((v >> 6) & 0x3f)
            < 0x100 && (v & 0x3f) < 0x100) by (bit_vector);
        let b0: u8 = 0xf0 | ((v >> 18) & 0x07) as u8;
        let b1: u8 = 0x80 | ((v >> 12) & 0x3f) as u8;
        let b2: u8 = 0x80 | ((v >> 6) & 0x3f) as u8;
        let b3: u8 = 0x80 | (v & 0x3f) as u8;
        vec![b0, b1, b2, b3]
    }
}

/// The bytes that a key sends to the device.
pub fn key_sequence(key_event: KeyEvent, enter: Eol) -> (out: Option<Vec<u8>>)
    ensures
        match out {
            Some(bytes) => key_bytes(key_event, enter) == Some(bytes@),
            None => key_bytes(key_event, enter) is None,
        },
{
    // These escape sequences are the plain VT ones, which small devices
    // understand:
    //
    //  Up      ESC [A
    //  Down    ESC [B
    //  Right   ESC [C
    //  Left    ESC [D
    //  Home    ESC [H
    //  End     ESC [F
    //  Del     ESC [3~
    //  Insert  ESC [2~
    match key_event.code {
        KeyCode::Backspace => Some(vec![0x08u8]),
        KeyCode::Enter => Some(enter.bytes()),
        KeyCode::Left => Some(vec![0x1bu8, 0x5b, 0x44]),
        KeyCode::Right => Some(vec![0x1bu8, 0x5b, 0x43]),
        KeyCode::Home => Some(vec![0x1bu8, 0x5b, 0x48]),
        KeyCode::End => Some(vec![0x1bu8, 0x5b, 0x46]),
        KeyCode::Up => Some(vec![0x1bu8, 0x5b, 0x41]),
        KeyCode::Down => Some(vec![0x1bu8, 0x5b, 0x42]),
        KeyCode::Tab => Some(vec![0x09u8]),
        KeyCode::Delete => Some(vec![0x1bu8, 0x5b, 0x33, 0x7e]),
        KeyCode::Insert => Some(vec![0x1bu8, 0x5b, 0x32, 0x7e]),
        KeyCode::Esc => Some(vec![0x1bu8]),
        KeyCode::Char(ch) => {
            if key_event.modifiers.has_control() {
                let code: u32 = ch as u32;
                if (0x61 <= code && code <= 0x7a) || code == 0x20 {
                    let byte: u8 = code as u8;
                    Some(vec![byte & 0x1f])
                } else if 0x34 <= code && code <= 0x37 {
                    // The terminal reports Control-4 to Control-7 for the
                    // control codes 0x1c to 0x1f.
                    let byte: u8 = code as u8;
                    Some(vec![(byte + 8) & 0x1f])
                } else {
                    Some(encode_char(ch))
                }
            } else {
                Some(encode_char(ch))
            }
        },
        _ => None,
    }
}

/// What a key event asks for: the bytes to send, and what to show for them.
#[derive(Debug)]
pub struct KeyOutcome {
    /// The bytes to queue for the device, as one unit.
    pub bytes: Bytes,
    /// The text to write to the local display at once, if any.
    pub echo: Option<String>,
    /// The dump of the bytes for the diagnostic output, if any.
    pub trace: Option<String>,
}

/// The text to show locally for bytes that are sent: the bytes as text where
/// echo is on and they are well-formed UTF-8.
pub open spec fn echo_text(bytes: Seq<u8>, echo: bool) -> Option<Seq<char>> {
    if echo && valid_utf8(bytes) {
        Some(decode_utf8(bytes))
    } else {
        None
    }
}

/// The dump to show for bytes that are sent, where diagnostics are on.
pub open spec fn trace_text(bytes: Seq<u8>, debug: bool) -> Option<Seq<char>> {
    if debug {
        Some(hex_dump(bytes))
    } else {
        None
    }
}

/// A string as the characters it holds, where there is one.
pub open spec fn text_of(s: Option<String>) -> Option<Seq<char>> {
    match s {
        Some(t) => Some(t@),
        None => None,
    }
}

/// Converts a key event into the character or escape sequence which is then
/// sent over the serial connection, with what is to be shown for it.
pub fn handle_key_event(key_event: KeyEvent, config: &SessionConfig) -> (out: Option<KeyOutcome>)
    ensures
        match out {
            Some(outcome) => {
                &&& key_bytes(key_event, config.enter) == Some(payload(outcome.bytes))
                &&& text_of(outcome.echo) == echo_text(payload(outcome.bytes), config.echo)
                &&& text_of(outcome.trace) == trace_text(payload(outcome.bytes), config.debug)
            },
            None => key_bytes(key_event, config.enter) is None,
        },
{
    match key_sequence(key_event, config.enter) {
        Some(key_str) => {
            let trace = if config.debug {
                Some(hex_str(key_str.as_slice()))
            } else {
                None
            };
            let echo = if config.echo {
                match str_from_utf8(key_str.as_slice()) {
                    Ok(val) => Some(val.to_owned()),
                    Err(_) => None,
                }
            } else {
                None
            };
            Some(KeyOutcome { bytes: bytes_from_slice(key_str.as_slice()), echo, trace })
        },
        None => None,
    }
}

} // verus!
