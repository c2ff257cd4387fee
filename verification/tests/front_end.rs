use swd_debugger::models::{connection_event, connection_step, CommandResponse, ConnectionAction};
use swd_debugger::registers::{get_register_name, LAST_REGISTER, LR, PC, R0, R12, SP, XPSR};
use swd_debugger::serial::{
    choose_port, find_usb_port, pid_present, received_bytes, PortCandidate, DEBUG_SEQUENCE,
    TARGET_PID,
};

fn port(name: &str, usb_pid: Option<u16>) -> PortCandidate {
    PortCandidate { name: name.to_string(), usb_pid }
}

#[test]
fn response_to_a_command_that_succeeded() {
    let response = CommandResponse::from_outcome("halt", "Halted", Ok(()));
    assert!(response.success);
    assert_eq!(response.message, "Halted");
    assert_eq!(response.command, "halt");
    assert!(response.args.is_empty());
}

#[test]
fn response_to_a_command_that_failed() {
    let response =
        CommandResponse::from_outcome("resume", "Resumed", Err("port closed".to_string()));
    assert!(!response.success);
    assert_eq!(response.message, "Error: port closed");
    assert_eq!(response.command, "resume");
    assert!(response.args.is_empty());
}

#[test]
fn response_when_the_session_is_out_of_reach() {
    let response = CommandResponse::lock_failed("halt");
    assert!(!response.success);
    assert_eq!(response.message, "Error: Failed to acquire loader lock");
    assert_eq!(response.command, "halt");
    assert!(response.args.is_empty());
}

#[test]
fn connection_watch_acts_on_changes_only() {
    assert_eq!(connection_step(None, true), ConnectionAction::Reconnect);
    assert_eq!(connection_step(None, false), ConnectionAction::Close);
    assert_eq!(connection_step(Some(true), true), ConnectionAction::Nothing);
    assert_eq!(connection_step(Some(false), false), ConnectionAction::Nothing);
    assert_eq!(connection_step(Some(false), true), ConnectionAction::Reconnect);
    assert_eq!(connection_step(Some(true), false), ConnectionAction::Close);
}

#[test]
fn connection_watch_announces_what_happened() {
    assert_eq!(connection_event(ConnectionAction::Nothing, true), None);
    assert_eq!(connection_event(ConnectionAction::Nothing, false), None);
    assert_eq!(connection_event(ConnectionAction::Reconnect, true), Some(true));
    assert_eq!(connection_event(ConnectionAction::Reconnect, false), Some(false));
    assert_eq!(connection_event(ConnectionAction::Close, true), Some(false));
    assert_eq!(connection_event(ConnectionAction::Close, false), Some(false));
}

#[test]
fn first_port_with_the_product_identifier_is_found() {
    let ports = vec![
        port("/dev/ttyS0", None),
        port("/dev/ttyUSB0", Some(0x6001)),
        port("/dev/ttyACM0", Some(0x8055)),
        port("/dev/ttyACM1", Some(0x8055)),
    ];
    assert_eq!(find_usb_port(&ports, TARGET_PID), Some(2));
    assert_eq!(find_usb_port(&ports, 0x6001), Some(1));
    assert_eq!(find_usb_port(&ports, 0x1234), None);
    assert_eq!(find_usb_port(&vec![], TARGET_PID), None);
    assert_eq!(TARGET_PID, 0x8055);
}

#[test]
fn port_choice_falls_back_to_the_first_port() {
    let ports = vec![port("/dev/ttyS0", None), port("/dev/ttyACM0", Some(0x8055))];
    assert_eq!(choose_port(&ports, 0x8055), Some(1));
    assert_eq!(choose_port(&ports, 0x1111), Some(0));
    assert_eq!(choose_port(&vec![], 0x8055), None);
}

#[test]
fn device_is_present_when_its_product_identifier_is_listed() {
    assert!(pid_present(&[0x0001, 0x8055, 0x0002], 0x8055));
    assert!(!pid_present(&[0x0001, 0x0002], 0x8055));
    assert!(!pid_present(&[], 0x8055));
}

#[test]
fn received_bytes_are_what_the_read_filled() {
    let buffer = [1, 2, 3, 4, 5, 0, 0, 0];
    assert_eq!(received_bytes(&buffer, Some(5)), vec![1, 2, 3, 4, 5]);
    assert_eq!(received_bytes(&buffer, Some(0)), vec![]);
    assert_eq!(received_bytes(&buffer, None), vec![]);
    assert_eq!(received_bytes(&buffer, Some(8)), buffer.to_vec());
}

#[test]
fn debug_sequence_is_a_resume_frame_with_a_zero_checksum() {
    assert_eq!(DEBUG_SEQUENCE, [0xff, 0xf9, 0x00, 0x02, 0xc2, 0x00, 0xf5, 0xe7]);
}

#[test]
fn register_names_by_index() {
    let names: Vec<&str> = (0..=16).map(get_register_name).collect();
    assert_eq!(
        names,
        vec![
            "R0", "R1", "R2", "R3", "R4", "R5", "R6", "R7", "R8", "R9", "R10", "R11", "R12",
            "SP", "LR", "PC", "XPSR"
        ]
    );
    assert_eq!(get_register_name(17), "UNKNOWN");
    assert_eq!(get_register_name(u32::MAX), "UNKNOWN");
    assert_eq!((R0, R12, SP, LR, PC, XPSR, LAST_REGISTER), (0, 12, 13, 14, 15, 16, 16));
}
