//! Line parameters and session options.

use crate::error::ProgramError;
use crate::key::{KeyCode, KeyEvent, KeyModifiers, TerminalInputEvent, CONTROL};
use vstd::prelude::*;
use vstd::string::*;

verus! {

/// Number of bits per character.
#[derive(Clone, Copy, Debug, PartialEq, Eq, Structural)]
pub enum DataBits {
    /// 5 bits per character.
    Five,
    /// 6 bits per character.
    Six,
    /// 7 bits per character.
    Seven,
    /// 8 bits per character.
    Eight,
}

impl DataBits {
    /// The data bits for a count of 5 to 8; no other count is supported.
    pub open spec fn of_count(value: usize) -> Option<DataBits> {
        if value == 5 {
            Some(DataBits::Five)
        } else if value == 6 {
            Some(DataBits::Six)
        } else if value == 7 {
            Some(DataBits::Seven)
        } else if value == 8 {
            Some(DataBits::Eight)
        } else {
            None
        }
    }

    /// The data bits for a count, or the error for a count out of range.
    pub fn try_from(value: usize) -> (r: Result<DataBits, ProgramError>)
        ensures
            match r {
                Ok(bits) => DataBits::of_count(value) == Some(bits),
                Err(e) => DataBits::of_count(value) is None && e.is_io_error(
                    "databits out of range"@,
                ),
            },
    {
        match value {
            5 => Ok(DataBits::Five),
            6 => Ok(DataBits::Six),
            7 => Ok(DataBits::Seven),
            8 => Ok(DataBits::Eight),
            _ => Err(ProgramError::IoError(String::from_str("databits out of range"))),
        }
    }
}

/// Flow control modes.
#[derive(Clone, Copy, Debug, PartialEq, Eq, Structural)]
pub enum FlowControl {
    /// No flow control.
    Off,
    /// Flow control using XON/XOFF bytes.
    Software,
    /// Flow control using RTS/CTS signals.
    Hardware,
}

/// Parity checking modes.
#[derive(Clone, Copy, Debug, PartialEq, Eq, Structural)]
pub enum Parity {
    /// No parity bit.
    Off,
    /// Parity bit sets odd number of 1 bits.
    Odd,
    /// Parity bit sets even number of 1 bits.
    Even,
}

/// Number of stop bits.
#[derive(Clone, Copy, Debug, PartialEq, Eq, Structural)]
pub enum StopBits {
    /// One stop bit.
    One,
    /// Two stop bits.
    Two,
}

impl StopBits {
    /// The stop bits for a count of 1 or 2; no other count is supported.
    pub open spec fn of_count(value: usize) -> Option<StopBits> {
        if value == 1 {
            Some(StopBits::One)
        } else if value == 2 {
            Some(StopBits::Two)
        } else {
            None
        }
    }

    /// The stop bits for a count, or the error for a count out of range.
    pub fn try_from(value: usize) -> (r: Result<StopBits, ProgramError>)
        ensures
            match r {
                Ok(bits) => StopBits::of_count(value) == Some(bits),
                Err(e) => StopBits::of_count(value) is None && e.is_io_error(
                    "stopbits out of range"@,
                ),
            },
    {
        match value {
            1 => Ok(StopBits::One),
            2 => Ok(StopBits::Two),
            _ => Err(ProgramError::IoError(String::from_str("stopbits out of range"))),
        }
    }
}

/// Byte sequence sent to the device when Enter is pressed.
#[derive(Clone, Copy, Debug, PartialEq, Eq, Structural)]
pub enum Eol {
    /// Carriage return.
    Cr,
    /// Carriage return, line feed.
    Crlf,
    /// Line feed.
    Lf,
}

impl Eol {
    /// The bytes of this line ending.
    pub open spec fn spec_bytes(self) -> Seq<u8> {
        match self {
            Eol::Cr => seq![0x0du8],
            Eol::Crlf => seq![0x0du8, 0x0au8],
            Eol::Lf => seq![0x0au8],
        }
    }

    /// Returns the bytes of this line ending.
    pub fn bytes(&self) -> (out: Vec<u8>)
        ensures
            out@ == self.spec_bytes(),
    {
        match self {
            Eol::Cr => vec![0x0du8],
            Eol::Crlf => vec![0x0du8, 0x0au8],
            Eol::Lf => vec![0x0au8],
        }
    }
}

/// What a session is run with. Made once, before the session starts, and
/// only read afterwards.
#[derive(Clone, Copy, Debug)]
pub struct SessionConfig {
    /// Baud rate of the line.
    pub baud: u32,
    /// Bits per character.
    pub data_bits: DataBits,
    /// Parity checking.
    pub parity: Parity,
    /// Stop bits.
    pub stop_bits: StopBits,
    /// Flow control.
    pub flow_control: FlowControl,
    /// What Enter sends.
    pub enter: Eol,
    /// Exit with Control-Y rather than Control-X.
    pub ctrl_y_exit: bool,
    /// Show what is typed on the local display.
    pub echo: bool,
    /// Show diagnostics in place of plain output.
    pub debug: bool,
}

impl SessionConfig {
    /// The configuration with these settings, where both counts of bits are
    /// in range; `None` where one is not.
    pub open spec fn of_settings(
        baud: u32,
        databits: usize,
        parity: Parity,
        stopbits: usize,
        flow_control: FlowControl,
        enter: Eol,
        ctrl_y_exit: bool,
        echo: bool,
        debug: bool,
    ) -> Option<SessionConfig> {
        match (DataBits::of_count(databits), StopBits::of_count(stopbits)) {
            (Some(data_bits), Some(stop_bits)) => Some(
                SessionConfig {
                    baud,
                    data_bits,
                    parity,
                    stop_bits,
                    flow_control,
                    enter,
                    ctrl_y_exit,
                    echo,
                    debug,
                },
            ),
            _ => None,
        }
    }

    /// Makes the configuration of a session from settings as they are given
    /// by the user. A count of data bits or of stop bits that is out of
    /// range is an error, that of the data bits first; no session is started
    /// then.
    pub fn new(
        baud: u32,
        databits: usize,
        parity: Parity,
        stopbits: usize,
        flow_control: FlowControl,
        enter: Eol,
        ctrl_y_exit: bool,
        echo: bool,
        debug: bool,
    ) -> (r: Result<SessionConfig, ProgramError>)
        ensures
            match r {
                Ok(config) => SessionConfig::of_settings(
                    baud,
                    databits,
                    parity,
                    stopbits,
                    flow_control,
                    enter,
                    ctrl_y_exit,
                    echo,
                    debug,
                ) == Some(config),
                Err(e) => if DataBits::of_count(databits) is None {
                    e.is_io_error("databits out of range"@)
                } else {
                    StopBits::of_count(stopbits) is None && e.is_io_error(
                        "stopbits out of range"@,
                    )
                },
            },
    {
        let data_bits = match DataBits::try_from(databits) {
            Ok(bits) => bits,
            Err(e) => {
                return Err(e);
            },
        };
        let stop_bits = match StopBits::try_from(stopbits) {
            Ok(bits) => bits,
            Err(e) => {
                return Err(e);
            },
        };
        Ok(
            SessionConfig {
                baud,
                data_bits,
                parity,
                stop_bits,
                flow_control,
                enter,
                ctrl_y_exit,
                echo,
                debug,
            },
        )
    }
}

/// The lowercase letter that, with Control, ends the session.
pub open spec fn spec_exit_char(config: &SessionConfig) -> char {
    if config.ctrl_y_exit {
        'y'
    } else {
        'x'
    }
}

/// The event that ends the session: the exit letter with Control and no other
/// modifier.
pub open spec fn spec_exit_code(config: &SessionConfig) -> TerminalInputEvent {
    TerminalInputEvent::Key(
        KeyEvent {
            code: KeyCode::Char(spec_exit_char(config)),
            modifiers: KeyModifiers { bits: CONTROL },
        },
    )
}

/// Returns the lowercase version of the character which will cause the
/// session to exit.
#[verifier::when_used_as_spec(spec_exit_char)]
pub fn exit_char(config: &SessionConfig) -> (c: char)
    ensures
        c == spec_exit_char(config),
{
    if config.ctrl_y_exit {
        'y'
    } else {
        'x'
    }
}

/// Returns the event of the exit character which will cause the session to
/// exit.
#[verifier::when_used_as_spec(spec_exit_code)]
pub fn exit_code(config: &SessionConfig) -> (event: TerminalInputEvent)
    ensures
        event == spec_exit_code(config),
{
    TerminalInputEvent::Key(
        KeyEvent { code: KeyCode::Char(exit_char(config)), modifiers: KeyModifiers { bits: CONTROL } },
    )
}

/// The exit character in upper case.
pub open spec fn exit_letter(config: &SessionConfig) -> char {
    if config.ctrl_y_exit {
        'Y'
    } else {
        'X'
    }
}

/// Returns a human readable string of the exit character.
pub fn exit_label(config: &SessionConfig) -> (label: String)
    ensures
        label@ == "Control-"@.push(exit_letter(config)),
{
    proof {
        reveal_strlit("Control-");
        reveal_strlit("Control-X");
        reveal_strlit("Control-Y");
    }
    let label = if config.ctrl_y_exit {
        String::from_str("Control-Y")
    } else {
        String::from_str("Control-X")
    };
    assert(label@ =~= "Control-"@.push(exit_letter(config)));
    label
}

} // verus!
