//! Session engine of an interactive serial terminal: key events become the
//! bytes a remote device expects, and bytes from the device become text.
//!
//! - [`key`] turns a key event into the bytes to send.
//! - [`string_decoder`] turns bytes that arrive in fragments into text.
//! - [`session`] is the session as a state machine: the caller waits on the
//!   keyboard and on the device, hands over what happened, and carries out
//!   the action that comes back.
//! - [`ports`] chooses the device among those that are connected.
//! - [`config`], [`error`] and [`hex`] hold the settings, the failures and
//!   the diagnostic dump.
//! - [`decoder_laws`], [`key_laws`], [`session_laws`] and [`ports_laws`]
//!   state and prove what holds of all of these.
//! - [`trusted`] is the boundary to code that is not verified here.

pub mod config;
pub mod decoder_laws;
pub mod error;
pub mod hex;
pub mod key;
pub mod key_laws;
pub mod ports;
pub mod ports_laws;
pub mod session;
pub mod session_laws;
pub mod string_decoder;
pub mod trusted;
