//! The session between keyboard and device as a state machine. The caller
//! waits on its sources, hands each thing that happened to
//! [`Session::step`], and carries out the action that comes back.

use crate::config::{exit_code, SessionConfig};
use crate::key::{
    echo_text, handle_key_event, key_bytes, text_of, trace_text, KeyOutcome, TerminalInputEvent,
};
use crate::string_decoder::{decode_step, StringDecoder};
use crate::trusted::{buffered, payload};
use tokio_util::bytes::BytesMut;
use vstd::prelude::*;

verus! {

/// Why a session ends.
#[derive(Clone, Copy, Debug, PartialEq, Eq, Structural)]
pub enum TerminationReason {
    /// The exit key was pressed.
    UserExit,
    /// The device closed the connection.
    SerialClosed,
    /// Reading from the device failed, most often because it was unplugged.
    SerialError,
    /// The keyboard has no more events.
    KeyboardClosed,
    /// Reading the keyboard failed.
    KeyboardError,
}

/// Where a session stands.
#[derive(Clone, Copy, Debug, PartialEq, Eq, Structural)]
pub enum SessionState {
    /// Events are taken and acted on.
    Running,
    /// The session is ending for this reason; no event is acted on any more.
    Terminating(TerminationReason),
    /// The caller has left its loop.
    Terminated,
}

/// One thing that happened at one of the sources.
#[derive(Debug)]
pub enum SessionEvent {
    /// The terminal reported an event.
    Terminal(TerminalInputEvent),
    /// The terminal has no more events.
    KeyboardClosed,
    /// Reading the terminal failed.
    KeyboardError,
    /// Bytes arrived from the device.
    SerialData(BytesMut),
    /// The device closed the connection.
    SerialClosed,
    /// Reading from the device failed.
    SerialError,
    /// The writer finished sending what was queued.
    WriteCompleted,
}

/// What the caller is to do after a step.
#[derive(Debug)]
pub enum SessionAction {
    /// Nothing.
    Idle,
    /// Queue the bytes for the device, and show what goes with them.
    Send(KeyOutcome),
    /// Tell the diagnostic output that this event sends nothing.
    Log(TerminalInputEvent),
    /// Write this text from the device to the display as it is.
    Display(String),
    /// Write this text from the device to the diagnostic output, in a form
    /// that shows every character.
    Trace(String),
    /// Leave the loop.
    Stop(TerminationReason),
}

/// A [`SessionEvent`] as plain values.
pub enum EventView {
    /// The terminal reported an event.
    Terminal(TerminalInputEvent),
    /// The terminal has no more events.
    KeyboardClosed,
    /// Reading the terminal failed.
    KeyboardError,
    /// These bytes arrived from the device.
    SerialData(Seq<u8>),
    /// The device closed the connection.
    SerialClosed,
    /// Reading from the device failed.
    SerialError,
    /// The writer finished sending what was queued.
    WriteCompleted,
}

/// A [`SessionAction`] as plain values.
pub enum ActionView {
    /// Nothing.
    Idle,
    /// Queue `bytes`; show `echo` on the display and `trace` on the
    /// diagnostic output.
    Send { bytes: Seq<u8>, echo: Option<Seq<char>>, trace: Option<Seq<char>> },
    /// Report an event that sends nothing.
    Log(TerminalInputEvent),
    /// Display text from the device.
    Display(Seq<char>),
    /// Trace text from the device.
    Trace(Seq<char>),
    /// Leave the loop.
    Stop(TerminationReason),
}

impl View for SessionEvent {
    type V = EventView;

    open spec fn view(&self) -> EventView {
        match *self {
            SessionEvent::Terminal(event) => EventView::Terminal(event),
            SessionEvent::KeyboardClosed => EventView::KeyboardClosed,
            SessionEvent::KeyboardError => EventView::KeyboardError,
            SessionEvent::SerialData(chunk) => EventView::SerialData(buffered(chunk)),
            SessionEvent::SerialClosed => EventView::SerialClosed,
            SessionEvent::SerialError => EventView::SerialError,
            SessionEvent::WriteCompleted => EventView::WriteCompleted,
        }
    }
}

impl View for SessionAction {
    type V = ActionView;

    open spec fn view(&self) -> ActionView {
        match *self {
            SessionAction::Idle => ActionView::Idle,
            SessionAction::Send(outcome) => ActionView::Send {
                bytes: payload(outcome.bytes),
                echo: text_of(outcome.echo),
                trace: text_of(outcome.trace),
            },
            SessionAction::Log(event) => ActionView::Log(event),
            SessionAction::Display(text) => ActionView::Display(text@),
            SessionAction::Trace(text) => ActionView::Trace(text@),
            SessionAction::Stop(reason) => ActionView::Stop(reason),
        }
    }
}

/// A session after a step, and the action that the step asks for.
pub struct Outcome {
    /// Where the session stands.
    pub state: SessionState,
    /// The bytes that its decoder holds.
    pub pending: Seq<u8>,
    /// What the caller is to do.
    pub action: ActionView,
}

/// What a terminal event asks of a running session.
///
/// The exit event ends the session and is not sent. A key that sends bytes
/// has them queued, with their echo and their dump as configured. Any other
/// event is reported.
pub open spec fn on_terminal(config: SessionConfig, pending: Seq<u8>, event: TerminalInputEvent)
    -> Outcome {
    if event == exit_code(&config) {
        Outcome {
            state: SessionState::Terminating(TerminationReason::UserExit),
            pending,
            action: ActionView::Stop(TerminationReason::UserExit),
        }
    } else {
        let action = match event {
            TerminalInputEvent::Key(key_event) => match key_bytes(key_event, config.enter) {
                Some(bytes) => ActionView::Send {
                    bytes,
                    echo: echo_text(bytes, config.echo),
                    trace: trace_text(bytes, config.debug),
                },
                None => ActionView::Log(event),
            },
            TerminalInputEvent::Other => ActionView::Log(event),
        };
        Outcome { state: SessionState::Running, pending, action }
    }
}

/// What bytes from the device ask of a running session: they are decoded,
/// and text that results goes to the display, or to the diagnostic output
/// where diagnostics are on, never to both.
pub open spec fn on_serial(config: SessionConfig, pending: Seq<u8>, chunk: Seq<u8>) -> Outcome {
    let decoded = decode_step(pending, chunk);
    let action = if decoded.text.len() == 0 {
        ActionView::Idle
    } else if config.debug {
        ActionView::Trace(decoded.text)
    } else {
        ActionView::Display(decoded.text)
    };
    Outcome { state: SessionState::Running, pending: decoded.pending, action }
}

/// A running session that ends for `reason`.
pub open spec fn stopping(pending: Seq<u8>, reason: TerminationReason) -> Outcome {
    Outcome { state: SessionState::Terminating(reason), pending, action: ActionView::Stop(reason) }
}

/// One step of a session.
///
/// A session that is not running takes no event: it stays as it is and asks
/// for nothing. A running session acts on the event by its source.
pub open spec fn step_spec(
    config: SessionConfig,
    state: SessionState,
    pending: Seq<u8>,
    event: EventView,
) -> Outcome {
    if state != SessionState::Running {
        Outcome { state, pending, action: ActionView::Idle }
    } else {
        match event {
            EventView::Terminal(e) => on_terminal(config, pending, e),
            EventView::KeyboardClosed => stopping(pending, TerminationReason::KeyboardClosed),
            EventView::KeyboardError => stopping(pending, TerminationReason::KeyboardError),
            EventView::SerialData(chunk) => on_serial(config, pending, chunk),
            EventView::SerialClosed => stopping(pending, TerminationReason::SerialClosed),
            EventView::SerialError => stopping(pending, TerminationReason::SerialError),
            EventView::WriteCompleted => Outcome {
                state: SessionState::Running,
                pending,
                action: ActionView::Idle,
            },
        }
    }
}

/// A session: its configuration, where it stands, and its decoder.
pub struct Session {
    config: SessionConfig,
    state: SessionState,
    decoder: StringDecoder,
}

impl Session {
    /// The configuration that the session was started with.
    pub closed spec fn config(self) -> SessionConfig {
        self.config
    }

    /// Where the session stands.
    pub closed spec fn spec_state(&self) -> SessionState {
        self.state
    }

    /// The bytes that the decoder of the session holds.
    pub closed spec fn pending(self) -> Seq<u8> {
        self.decoder.pending()
    }

    /// A running session with a decoder that holds nothing.
    pub fn new(config: SessionConfig) -> (session: Session)
        ensures
            session.config() == config,
            session.spec_state() == SessionState::Running,
            session.pending() == Seq::<u8>::empty(),
    {
        Session { config, state: SessionState::Running, decoder: StringDecoder::new() }
    }

    /// Where the session stands.
    #[verifier::when_used_as_spec(spec_state)]
    pub fn state(&self) -> (state: SessionState)
        ensures
            state == self.spec_state(),
    {
        self.state
    }

    /// True while the session takes events.
    pub fn is_running(&self) -> (running: bool)
        ensures
            running == (self.spec_state() == SessionState::Running),
    {
        match self.state {
            SessionState::Running => true,
            _ => false,
        }
    }

    /// Takes one event and returns what the caller is to do.
    pub fn step(&mut self, event: SessionEvent) -> (action: SessionAction)
        ensures
            final(self).config() == old(self).config(),
            final(self).spec_state() == step_spec(
                old(self).config(),
                old(self).spec_state(),
                old(self).pending(),
                event@,
            ).state,
            final(self).pending() == step_spec(
                old(self).config(),
                old(self).spec_state(),
                old(self).pending(),
                event@,
            ).pending,
            action@ == step_spec(
                old(self).config(),
                old(self).spec_state(),
                old(self).pending(),
                event@,
            ).action,
    {
        if !self.is_running() {
            return SessionAction::Idle;
        }
        match event {
            SessionEvent::Terminal(terminal_event) => {
                if terminal_event == exit_code(&self.config) {
                    self.state = SessionState::Terminating(TerminationReason::UserExit);
                    SessionAction::Stop(TerminationReason::UserExit)
                } else {
                    match terminal_event {
                        TerminalInputEvent::Key(key_event) => {
                            match handle_key_event(key_event, &self.config) {
                                Some(outcome) => SessionAction::Send(outcome),
                                None => SessionAction::Log(terminal_event),
                            }
                        },
                        TerminalInputEvent::Other => SessionAction::Log(terminal_event),
                    }
                }
            },
            SessionEvent::KeyboardClosed => self.stop(TerminationReason::KeyboardClosed),
            SessionEvent::KeyboardError => self.stop(TerminationReason::KeyboardError),
            SessionEvent::SerialData(chunk) => {
                let mut chunk = chunk;
                match self.decoder.decode(&mut chunk) {
                    Some(text) => {
                        if self.config.debug {
                            SessionAction::Trace(text)
                        } else {
                            SessionAction::Display(text)
                        }
                    },
                    None => SessionAction::Idle,
                }
            },
            SessionEvent::SerialClosed => self.stop(TerminationReason::SerialClosed),
            SessionEvent::SerialError => self.stop(TerminationReason::SerialError),
            SessionEvent::WriteCompleted => SessionAction::Idle,
        }
    }

    /// Ends a running session for `reason`.
    fn stop(&mut self, reason: TerminationReason) -> (action: SessionAction)
        requires
            old(self).spec_state() == SessionState::Running,
        ensures
            final(self).config() == old(self).config(),
            final(self).pending() == old(self).pending(),
            final(self).spec_state() == SessionState::Terminating(reason),
            action@ == ActionView::Stop(reason),
    {
        self.state = SessionState::Terminating(reason);
        SessionAction::Stop(reason)
    }

    /// Records that the caller has left its loop: a session that was ending
    /// has ended, and its reason is returned. A session in any other state
    /// stays as it is.
    pub fn finish(&mut self) -> (reason: Option<TerminationReason>)
        ensures
            final(self).config() == old(self).config(),
            final(self).pending() == old(self).pending(),
            match old(self).spec_state() {
                SessionState::Terminating(r) => reason == Some(r) && final(self).spec_state()
                    == SessionState::Terminated,
                _ => reason is None && final(self).spec_state() == old(self).spec_state(),
            },
    {
        match self.state {
            SessionState::Terminating(r) => {
                self.state = SessionState::Terminated;
                Some(r)
            },
            _ => None,
        }
    }
}

} // verus!
