//! What holds of a session over any sequence of events.

use crate::config::{exit_code, SessionConfig};
use crate::key::{key_bytes, trace_text, KeyEvent, TerminalInputEvent};
use crate::key_laws::lemma_echo_fidelity;
use crate::session::{
    step_spec, ActionView, EventView, Outcome, SessionState, TerminationReason,
};
use vstd::prelude::*;
use vstd::utf8::*;

verus! {

/// The outcome of each of `events`, taken in order by a session that starts
/// in `state` with `pending` held by its decoder.
pub open spec fn run(
    config: SessionConfig,
    state: SessionState,
    pending: Seq<u8>,
    events: Seq<EventView>,
) -> Seq<Outcome>
    decreases events.len(),
{
    if events.len() == 0 {
        Seq::empty()
    } else {
        let first = step_spec(config, state, pending, events[0]);
        seq![first] + run(config, first.state, first.pending, events.drop_first())
    }
}

/// Every event has its outcome.
pub proof fn lemma_run_len(
    config: SessionConfig,
    state: SessionState,
    pending: Seq<u8>,
    events: Seq<EventView>,
)
    ensures
        run(config, state, pending, events).len() == events.len(),
    decreases events.len(),
{
    if events.len() > 0 {
        let first = step_spec(config, state, pending, events[0]);
        lemma_run_len(config, first.state, first.pending, events.drop_first());
    }
}

/// A session that is not running stays as it is, whatever happens, and asks
/// for nothing.
pub proof fn lemma_stopped_stays(
    config: SessionConfig,
    state: SessionState,
    pending: Seq<u8>,
    events: Seq<EventView>,
    k: int,
)
    requires
        state != SessionState::Running,
        0 <= k < events.len(),
    ensures
        run(config, state, pending, events)[k] == (Outcome {
            state,
            pending,
            action: ActionView::Idle,
        }),
    decreases events.len(),
{
    let first = step_spec(config, state, pending, events[0]);
    lemma_run_len(config, first.state, first.pending, events.drop_first());
    if k > 0 {
        lemma_stopped_stays(config, first.state, first.pending, events.drop_first(), k - 1);
    }
}

/// Exit precedence. Once the exit event has been taken, the session is not
/// running, and no event that comes after it is acted on: each asks for
/// nothing, so none is sent to the device, whatever the session held before
/// and whatever the events are.
pub proof fn lemma_exit_precedence(
    config: SessionConfig,
    state: SessionState,
    pending: Seq<u8>,
    events: Seq<EventView>,
    i: int,
    j: int,
)
    requires
        0 <= i < j < events.len(),
        events[i] == EventView::Terminal(exit_code(&config)),
    ensures
        run(config, state, pending, events).len() == events.len(),
        run(config, state, pending, events)[i].state != SessionState::Running,
        run(config, state, pending, events)[j].state == run(config, state, pending, events)[i].state,
        run(config, state, pending, events)[j].action == ActionView::Idle,
    decreases i,
{
    let first = step_spec(config, state, pending, events[0]);
    let rest = events.drop_first();
    lemma_run_len(config, state, pending, events);
    lemma_run_len(config, first.state, first.pending, rest);
    if i == 0 {
        lemma_stopped_stays(config, first.state, first.pending, rest, j - 1);
    } else {
        lemma_exit_precedence(config, first.state, first.pending, rest, i - 1, j - 1);
    }
}

/// The exit event ends a running session for [`TerminationReason::UserExit`]
/// and is not itself sent to the device.
pub proof fn lemma_exit_ends_session(config: SessionConfig, pending: Seq<u8>)
    ensures
        step_spec(
            config,
            SessionState::Running,
            pending,
            EventView::Terminal(exit_code(&config)),
        ) == (Outcome {
            state: SessionState::Terminating(TerminationReason::UserExit),
            pending,
            action: ActionView::Stop(TerminationReason::UserExit),
        }),
{
}

/// Disconnection. A device that closes the connection, or fails, in the
/// middle of a session ends the session for that reason, whatever the
/// decoder holds: the caller is told to leave its loop, and nothing else
/// happens.
pub proof fn lemma_disconnection_ends_session(config: SessionConfig, pending: Seq<u8>)
    ensures
        step_spec(config, SessionState::Running, pending, EventView::SerialClosed) == (Outcome {
            state: SessionState::Terminating(TerminationReason::SerialClosed),
            pending,
            action: ActionView::Stop(TerminationReason::SerialClosed),
        }),
        step_spec(config, SessionState::Running, pending, EventView::SerialError) == (Outcome {
            state: SessionState::Terminating(TerminationReason::SerialError),
            pending,
            action: ActionView::Stop(TerminationReason::SerialError),
        }),
{
}

/// Echo fidelity. In a running session with echo on, a key that sends bytes
/// and is not the exit key has exactly these bytes queued for the device and
/// exactly their text shown on the display, and the session goes on.
pub proof fn lemma_key_is_sent_and_shown(
    config: SessionConfig,
    pending: Seq<u8>,
    key_event: KeyEvent,
)
    requires
        config.echo,
        TerminalInputEvent::Key(key_event) != exit_code(&config),
        key_bytes(key_event, config.enter) is Some,
    ensures
        step_spec(
            config,
            SessionState::Running,
            pending,
            EventView::Terminal(TerminalInputEvent::Key(key_event)),
        ) == (Outcome {
            state: SessionState::Running,
            pending,
            action: ActionView::Send {
                bytes: key_bytes(key_event, config.enter)->0,
                echo: Some(decode_utf8(key_bytes(key_event, config.enter)->0)),
                trace: trace_text(key_bytes(key_event, config.enter)->0, config.debug),
            },
        }),
{
    lemma_echo_fidelity(key_event, config.enter);
}

} // verus!
