//! Why the program gives up.

use vstd::prelude::*;
use vstd::string::*;

verus! {

/// A failure that ends the program.
#[derive(Debug)]
pub enum ProgramError {
    /// No serial device matches the criteria.
    NoPortFound,
    /// The device of this name could not be opened; the reason follows.
    UnableToOpen(String, String),
    /// Input or output failed, or a setting is out of range; the reason.
    IoError(String),
    /// The serial layer failed; the reason.
    SerialPortError(String),
}

impl ProgramError {
    /// True for an [`ProgramError::IoError`] with exactly this reason.
    pub open spec fn is_io_error(self, reason: Seq<char>) -> bool {
        self matches ProgramError::IoError(r) && r@ == reason
    }

    /// The message of this failure.
    pub open spec fn spec_message(self) -> Seq<char> {
        match self {
            ProgramError::NoPortFound => "No USB serial adapter found which matches criteria."@,
            ProgramError::UnableToOpen(port_name, reason) => "Unable to open serial port '"@
                + port_name@ + "': "@ + reason@,
            ProgramError::IoError(reason) => reason@,
            ProgramError::SerialPortError(reason) => "SerialPortError: "@ + reason@,
        }
    }

    /// The message of this failure, as shown to the user.
    pub fn message(&self) -> (text: String)
        ensures
            text@ == self.spec_message(),
    {
        match self {
            ProgramError::NoPortFound => String::from_str(
                "No USB serial adapter found which matches criteria.",
            ),
            ProgramError::UnableToOpen(port_name, reason) => {
                let mut text = String::from_str("Unable to open serial port '");
                text.append(port_name.as_str());
                text.append("': ");
                text.append(reason.as_str());
                text
            },
            ProgramError::IoError(reason) => reason.clone(),
            ProgramError::SerialPortError(reason) => {
                let mut text = String::from_str("SerialPortError: ");
                text.append(reason.as_str());
                text
            },
        }
    }

    /// The status that the process ends with: 1 when no device was found, 2
    /// for any other failure.
    pub open spec fn spec_exit_status(self) -> i32 {
        if self is NoPortFound {
            1
        } else {
            2
        }
    }

    /// The status that the process ends with.
    pub fn exit_status(&self) -> (status: i32)
        ensures
            status == self.spec_exit_status(),
            status != 0,
    {
        match self {
            ProgramError::NoPortFound => 1,
            _ => 2,
        }
    }

    /// What is written to the error stream before the process ends.
    pub open spec fn spec_report(self) -> Seq<char> {
        if self is NoPortFound {
            "No USB serial ports found"@
        } else {
            "Error: "@ + self.spec_message()
        }
    }

    /// What is written to the error stream before the process ends.
    pub fn report(&self) -> (text: String)
        ensures
            text@ == self.spec_report(),
    {
        match self {
            ProgramError::NoPortFound => String::from_str("No USB serial ports found"),
            _ => {
                let mut text = String::from_str("Error: ");
                let message = self.message();
                text.append(message.as_str());
                text
            },
        }
    }
}

} // verus!
