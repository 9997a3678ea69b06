use serial_monitor::config::{
    exit_char, exit_label, DataBits, Eol, FlowControl, Parity, SessionConfig, StopBits,
};
use serial_monitor::error::ProgramError;

fn config(ctrl_y_exit: bool) -> SessionConfig {
    SessionConfig {
        baud: 115200,
        data_bits: DataBits::Eight,
        parity: Parity::Off,
        stop_bits: StopBits::One,
        flow_control: FlowControl::Off,
        enter: Eol::Cr,
        ctrl_y_exit,
        echo: false,
        debug: false,
    }
}

#[test]
fn line_endings() {
    assert_eq!(Eol::Cr.bytes(), vec![0x0d]);
    assert_eq!(Eol::Crlf.bytes(), vec![0x0d, 0x0a]);
    assert_eq!(Eol::Lf.bytes(), vec![0x0a]);
}

#[test]
fn exit_character_and_label() {
    assert_eq!(exit_char(&config(false)), 'x');
    assert_eq!(exit_char(&config(true)), 'y');
    assert_eq!(exit_label(&config(false)), "Control-X");
    assert_eq!(exit_label(&config(true)), "Control-Y");
}

#[test]
fn data_bits_of_a_count() {
    assert_eq!(DataBits::try_from(5).ok(), Some(DataBits::Five));
    assert_eq!(DataBits::try_from(6).ok(), Some(DataBits::Six));
    assert_eq!(DataBits::try_from(7).ok(), Some(DataBits::Seven));
    assert_eq!(DataBits::try_from(8).ok(), Some(DataBits::Eight));
}

#[test]
fn data_bits_out_of_range() {
    for count in [0usize, 4, 9, 16, usize::MAX] {
        match DataBits::try_from(count) {
            Err(ProgramError::IoError(reason)) => assert_eq!(reason, "databits out of range"),
            other => panic!("expected an error, got {:?}", other),
        }
    }
}

#[test]
fn stop_bits_of_a_count() {
    assert_eq!(StopBits::try_from(1).ok(), Some(StopBits::One));
    assert_eq!(StopBits::try_from(2).ok(), Some(StopBits::Two));
}

#[test]
fn stop_bits_out_of_range() {
    for count in [0usize, 3, usize::MAX] {
        match StopBits::try_from(count) {
            Err(ProgramError::IoError(reason)) => assert_eq!(reason, "stopbits out of range"),
            other => panic!("expected an error, got {:?}", other),
        }
    }
}

#[test]
fn errors_have_their_messages() {
    assert_eq!(
        ProgramError::NoPortFound.message(),
        "No USB serial adapter found which matches criteria."
    );
    assert_eq!(
        ProgramError::UnableToOpen(String::from("/dev/ttyACM0"), String::from("busy")).message(),
        "Unable to open serial port '/dev/ttyACM0': busy"
    );
    assert_eq!(ProgramError::IoError(String::from("broken pipe")).message(), "broken pipe");
    assert_eq!(
        ProgramError::SerialPortError(String::from("no device")).message(),
        "SerialPortError: no device"
    );
}

#[test]
fn errors_have_their_exit_status_and_report() {
    assert_eq!(ProgramError::NoPortFound.exit_status(), 1);
    assert_eq!(ProgramError::NoPortFound.report(), "No USB serial ports found");
    let error = ProgramError::IoError(String::from("broken pipe"));
    assert_eq!(error.exit_status(), 2);
    assert_eq!(error.report(), "Error: broken pipe");
    let error = ProgramError::UnableToOpen(String::from("COM3"), String::from("denied"));
    assert_eq!(error.exit_status(), 2);
    assert_eq!(error.report(), "Error: Unable to open serial port 'COM3': denied");
    let error = ProgramError::SerialPortError(String::from("gone"));
    assert_eq!(error.exit_status(), 2);
    assert_eq!(error.report(), "Error: SerialPortError: gone");
}

#[test]
fn a_configuration_from_settings() {
    let config = SessionConfig::new(
        9600,
        7,
        Parity::Even,
        2,
        FlowControl::Hardware,
        Eol::Lf,
        true,
        true,
        false,
    )
    .expect("the counts are in range");
    assert_eq!(config.baud, 9600);
    assert_eq!(config.data_bits, DataBits::Seven);
    assert_eq!(config.parity, Parity::Even);
    assert_eq!(config.stop_bits, StopBits::Two);
    assert_eq!(config.flow_control, FlowControl::Hardware);
    assert_eq!(config.enter, Eol::Lf);
    assert!(config.ctrl_y_exit);
    assert!(config.echo);
    assert!(!config.debug);
}

#[test]
fn a_configuration_with_a_count_out_of_range() {
    let with = |databits, stopbits| {
        SessionConfig::new(
            115200,
            databits,
            Parity::Off,
            stopbits,
            FlowControl::Off,
            Eol::Cr,
            false,
            false,
            false,
        )
    };
    match with(9, 1) {
        Err(ProgramError::IoError(reason)) => assert_eq!(reason, "databits out of range"),
        other => panic!("expected an error, got {:?}", other),
    }
    match with(8, 3) {
        Err(ProgramError::IoError(reason)) => assert_eq!(reason, "stopbits out of range"),
        other => panic!("expected an error, got {:?}", other),
    }
    match with(4, 0) {
        Err(ProgramError::IoError(reason)) => assert_eq!(reason, "databits out of range"),
        other => panic!("expected an error, got {:?}", other),
    }
    assert!(with(5, 2).is_ok());
}
